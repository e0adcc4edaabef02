//! Decimal numerals: writing integers the way `{}` formats them and reading
//! unsigned integers the way `str::parse::<usize>` does.
use vstd::prelude::*;
use crate::text::{char_vec, is_ascii_digit, string_from_chars};

verus! {

pub open spec fn digit_char(d: nat) -> char
    recommends
        d < 10,
{
    (('0' as u8) + (d as u8)) as char
}

pub open spec fn digit_value(c: char) -> nat {
    ((c as u8) - ('0' as u8)) as nat
}

/// The decimal numeral of a natural number, without leading zeros.
pub open spec fn decimal(n: nat) -> Seq<char>
    decreases n,
{
    if n < 10 {
        seq![digit_char(n)]
    } else {
        decimal(n / 10).push(digit_char(n % 10))
    }
}

/// The decimal numeral of an integer, with a leading `-` when negative.
pub open spec fn int_decimal(i: int) -> Seq<char> {
    if i < 0 {
        seq!['-'] + decimal((-i) as nat)
    } else {
        decimal(i as nat)
    }
}

/// The value of a string of decimal digits.
pub open spec fn digits_value(d: Seq<char>) -> nat
    decreases d.len(),
{
    if d.len() == 0 {
        0
    } else {
        digits_value(d.drop_last()) * 10 + digit_value(d.last())
    }
}

pub open spec fn all_digits(d: Seq<char>) -> bool {
    forall|i: int| 0 <= i < d.len() ==> is_ascii_digit(#[trigger] d[i])
}

/// What `str::parse::<usize>` accepts and gives: an optional `+`, then one
/// or more ASCII digits whose value fits in a `usize`.
pub open spec fn parse_usize_spec(s: Seq<char>) -> Option<nat> {
    let d = if s.len() > 0 && s[0] == '+' {
        s.drop_first()
    } else {
        s
    };
    if d.len() > 0 && all_digits(d) && digits_value(d) <= usize::MAX {
        Some(digits_value(d))
    } else {
        None
    }
}

proof fn lemma_digit(d: nat)
    requires
        d < 10,
    ensures
        digit_value(digit_char(d)) == d,
        is_ascii_digit(digit_char(d)),
        digit_char(d) != '+',
{
    assert(('0' as u8) == 48u8);
    assert(((48 + d) as u8) as char as u8 == (48 + d) as u8);
}

pub proof fn lemma_decimal(n: nat)
    ensures
        decimal(n).len() > 0,
        all_digits(decimal(n)),
        digits_value(decimal(n)) == n,
        decimal(n)[0] != '+',
    decreases n,
{
    lemma_digit(n % 10);
    if n < 10 {
        assert(seq![digit_char(n)].drop_last() =~= Seq::<char>::empty());
        assert(n % 10 == n);
        assert(digits_value(decimal(n)) == digits_value(Seq::<char>::empty()) * 10 + digit_value(
            digit_char(n),
        ));
    } else {
        lemma_decimal(n / 10);
        let d = decimal(n);
        assert(d.drop_last() =~= decimal(n / 10));
        assert forall|i: int| 0 <= i < d.len() implies is_ascii_digit(#[trigger] d[i]) by {
            if i < d.len() - 1 {
                assert(d[i] == decimal(n / 10)[i]);
            }
        }
        assert(d[0] == decimal(n / 10)[0]);
        assert(d.last() == digit_char(n % 10));
        assert(digits_value(d) == digits_value(decimal(n / 10)) * 10 + digit_value(
            digit_char(n % 10),
        ));
        assert((n / 10) * 10 + n % 10 == n);
    }
}

proof fn lemma_digits_value_mono(d: Seq<char>, k: int)
    requires
        0 <= k <= d.len(),
    ensures
        digits_value(d.take(k)) <= digits_value(d),
    decreases d.len() - k,
{
    if k < d.len() {
        lemma_digits_value_mono(d, k + 1);
        assert(d.take(k + 1).drop_last() =~= d.take(k));
    } else {
        assert(d.take(k) =~= d);
    }
}

/// A `usize` written in decimal.
pub fn usize_to_string(n: usize) -> (r: String)
    ensures
        r@ == decimal(n as nat),
{
    let mut digits: Vec<char> = Vec::new();
    let mut m = n;
    // digits of m, most significant first, followed by what was peeled off
    while m >= 10
        invariant
            decimal(n as nat) == decimal(m as nat) + digits@,
        decreases m,
    {
        let c = (('0' as u8) + ((m % 10) as u8)) as char;
        let ghost old_digits = digits@;
        digits.insert(0, c);
        assert(decimal(m as nat) == decimal((m / 10) as nat).push(c));
        assert(decimal(m as nat) + old_digits =~= decimal((m / 10) as nat) + digits@);
        m = m / 10;
    }
    let c = (('0' as u8) + (m as u8)) as char;
    digits.insert(0, c);
    string_from_chars(&digits)
}

/// An `i64` written in decimal.
pub fn i64_to_string(i: i64) -> (r: String)
    ensures
        r@ == int_decimal(i as int),
{
    if i < 0 {
        let mag: u64 = (-(i as i128)) as u64;
        let mut r = String::new();
        r.push('-');
        let tail = u64_to_string(mag);
        r.append(tail.as_str());
        r
    } else {
        u64_to_string(i as u64)
    }
}

/// A `u64` written in decimal.
pub fn u64_to_string(n: u64) -> (r: String)
    ensures
        r@ == decimal(n as nat),
{
    let mut digits: Vec<char> = Vec::new();
    let mut m = n;
    while m >= 10
        invariant
            decimal(n as nat) == decimal(m as nat) + digits@,
        decreases m,
    {
        let c = (('0' as u8) + ((m % 10) as u8)) as char;
        let ghost old_digits = digits@;
        digits.insert(0, c);
        assert(decimal(m as nat) == decimal((m / 10) as nat).push(c));
        assert(decimal(m as nat) + old_digits =~= decimal((m / 10) as nat) + digits@);
        m = m / 10;
    }
    let c = (('0' as u8) + (m as u8)) as char;
    digits.insert(0, c);
    string_from_chars(&digits)
}

/// `str::parse::<usize>` on a character sequence.
pub fn parse_usize(s: &Vec<char>) -> (r: Option<usize>)
    ensures
        match r {
            Some(n) => parse_usize_spec(s@) == Some(n as nat),
            None => parse_usize_spec(s@) is None,
        },
{
    let start: usize = if s.len() > 0 && s[0] == '+' {
        1
    } else {
        0
    };
    let ghost d = if s@.len() > 0 && s@[0] == '+' {
        s@.drop_first()
    } else {
        s@
    };
    assert(d =~= s@.subrange(start as int, s.len() as int));
    if start == s.len() {
        return None;
    }
    let mut acc: usize = 0;
    let mut i = start;
    while i < s.len()
        invariant
            start <= i <= s.len(),
            d == s@.subrange(start as int, s.len() as int),
            d == (if s@.len() > 0 && s@[0] == '+' {
                s@.drop_first()
            } else {
                s@
            }),
            acc == digits_value(d.take(i - start)),
            all_digits(d.take(i - start)),
        decreases s.len() - i,
    {
        let c = s[i];
        assert(d.take(i - start + 1).drop_last() =~= d.take(i - start));
        assert(d[i - start] == c);
        if !('0' <= c && c <= '9') {
            assert(!is_ascii_digit(d[i - start]));
            return None;
        }
        let dv = ((c as u8) - ('0' as u8)) as usize;
        assert(digit_value(c) == dv);
        if acc > (usize::MAX - dv) / 10 {
            proof {
                let q = (usize::MAX - dv) / 10;
                assert(acc * 10 + dv > usize::MAX) by (nonlinear_arith)
                    requires
                        acc > q,
                        q == (usize::MAX - dv) / 10,
                        dv <= 9,
                ;
                lemma_digits_value_mono(d, i - start + 1);
            }
            return None;
        }
        acc = acc * 10 + dv;
        i += 1;
        assert forall|k: int| 0 <= k < d.take(i - start).len() implies is_ascii_digit(
            #[trigger] d.take(i - start)[k],
        ) by {
            if k < i - start - 1 {
                assert(d.take(i - start)[k] == d.take(i - start - 1)[k]);
            }
        }
    }
    assert(d.take(s.len() - start) =~= d);
    Some(acc)
}

/// `str::parse::<usize>` on a string.
pub fn parse_usize_str(s: &str) -> (r: Option<usize>)
    ensures
        match r {
            Some(n) => parse_usize_spec(s@) == Some(n as nat),
            None => parse_usize_spec(s@) is None,
        },
{
    let cs = char_vec(s);
    parse_usize(&cs)
}

/// Reading back a written `usize` gives the number.
pub proof fn lemma_parse_decimal(n: nat)
    requires
        n <= usize::MAX,
    ensures
        parse_usize_spec(decimal(n)) == Some(n),
{
    lemma_decimal(n);
}

} // verus!
