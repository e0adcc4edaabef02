//! Character-level building blocks shared by every parser and emitter of the
//! crate: whitespace classification, ASCII case folding, trimming, splitting
//! on whitespace and joining.
//!
//! Every executable function here is stated against a spec function over
//! `Seq<char>`, the view of `str` and `String`.
use vstd::prelude::*;

verus! {

/// `String::push` appends one character.
pub assume_specification[ String::push ](s: &mut String, ch: char)
    ensures
        final(s)@ == old(s)@.push(ch),
;

// ---------------------------------------------------------------------------
// Character classes
// ---------------------------------------------------------------------------
/// The Unicode `White_Space` property, which is what `char::is_whitespace`
/// tests.
pub open spec fn is_space(c: char) -> bool {
    ||| c == ' '
    ||| ('\u{9}' <= c && c <= '\u{d}')
    ||| c == '\u{85}'
    ||| c == '\u{a0}'
    ||| c == '\u{1680}'
    ||| ('\u{2000}' <= c && c <= '\u{200a}')
    ||| c == '\u{2028}'
    ||| c == '\u{2029}'
    ||| c == '\u{202f}'
    ||| c == '\u{205f}'
    ||| c == '\u{3000}'
}

pub fn is_whitespace(c: char) -> (r: bool)
    ensures
        r == is_space(c),
{
    c == ' ' || ('\u{9}' <= c && c <= '\u{d}') || c == '\u{85}' || c == '\u{a0}' || c
        == '\u{1680}' || ('\u{2000}' <= c && c <= '\u{200a}') || c == '\u{2028}' || c
        == '\u{2029}' || c == '\u{202f}' || c == '\u{205f}' || c == '\u{3000}'
}

/// `char::is_alphanumeric`: alphabetic or numeric in the Unicode sense.
pub uninterp spec fn unicode_alphanumeric(c: char) -> bool;

/// Alphanumeric in the Unicode sense; among ASCII characters, the letters
/// and digits.
pub open spec fn alphanumeric(c: char) -> bool {
    if '\u{80}' <= c {
        unicode_alphanumeric(c)
    } else {
        is_ascii_alnum(c)
    }
}

/// `char::is_alphanumeric`. Among ASCII characters the letters and digits
/// are exactly the alphabetic and numeric ones (`char::is_alphanumeric`
/// documents it as `is_alphabetic() || is_numeric()`, whose ASCII members
/// are `A`-`Z`, `a`-`z` and `0`-`9`).
#[verifier::external_body]
pub(crate) fn is_alphanumeric(c: char) -> (r: bool)
    ensures
        r == unicode_alphanumeric(c),
        r == alphanumeric(c),
{
    c.is_alphanumeric()
}

pub open spec fn is_ascii_upper(c: char) -> bool {
    'A' <= c && c <= 'Z'
}

pub open spec fn is_ascii_digit(c: char) -> bool {
    '0' <= c && c <= '9'
}

pub open spec fn is_ascii_alnum(c: char) -> bool {
    ||| ('a' <= c && c <= 'z')
    ||| is_ascii_upper(c)
    ||| is_ascii_digit(c)
}

pub fn is_ascii_alphanumeric(c: char) -> (r: bool)
    ensures
        r == is_ascii_alnum(c),
{
    ('a' <= c && c <= 'z') || ('A' <= c && c <= 'Z') || ('0' <= c && c <= '9')
}

/// ASCII lower-casing of one character; every other character is kept.
pub open spec fn lower_char(c: char) -> char {
    if is_ascii_upper(c) {
        ((c as u8) + 32u8) as char
    } else {
        c
    }
}

pub fn to_ascii_lower(c: char) -> (r: char)
    ensures
        r == lower_char(c),
{
    if 'A' <= c && c <= 'Z' {
        ((c as u8) + 32u8) as char
    } else {
        c
    }
}

/// `str::to_ascii_lowercase` on a sequence of characters.
pub open spec fn lower_seq(s: Seq<char>) -> Seq<char> {
    s.map_values(|c: char| lower_char(c))
}

// ---------------------------------------------------------------------------
// Trimming
// ---------------------------------------------------------------------------
/// Number of leading whitespace characters.
pub open spec fn lead_ws(s: Seq<char>) -> nat
    decreases s.len(),
{
    if s.len() > 0 && is_space(s[0]) {
        1 + lead_ws(s.drop_first())
    } else {
        0
    }
}

/// Number of trailing whitespace characters.
pub open spec fn trail_ws(s: Seq<char>) -> nat
    decreases s.len(),
{
    if s.len() > 0 && is_space(s.last()) {
        1 + trail_ws(s.drop_last())
    } else {
        0
    }
}

pub open spec fn trim_start(s: Seq<char>) -> Seq<char> {
    s.subrange(lead_ws(s) as int, s.len() as int)
}

pub open spec fn trim_end(s: Seq<char>) -> Seq<char> {
    s.subrange(0, s.len() - trail_ws(s))
}

/// `str::trim`: both ends stripped of Unicode whitespace.
pub open spec fn trim(s: Seq<char>) -> Seq<char> {
    trim_end(trim_start(s))
}

pub proof fn lemma_lead_ws(s: Seq<char>)
    ensures
        lead_ws(s) <= s.len(),
        forall|i: int| 0 <= i < lead_ws(s) ==> is_space(#[trigger] s[i]),
        lead_ws(s) < s.len() ==> !is_space(s[lead_ws(s) as int]),
    decreases s.len(),
{
    if s.len() > 0 && is_space(s[0]) {
        lemma_lead_ws(s.drop_first());
        assert forall|i: int| 0 <= i < lead_ws(s) implies is_space(#[trigger] s[i]) by {
            if i > 0 {
                assert(s[i] == s.drop_first()[i - 1]);
            }
        }
    }
}

pub proof fn lemma_trail_ws(s: Seq<char>)
    ensures
        trail_ws(s) <= s.len(),
        forall|i: int| s.len() - trail_ws(s) <= i < s.len() ==> is_space(#[trigger] s[i]),
        trail_ws(s) < s.len() ==> !is_space(s[s.len() - trail_ws(s) - 1]),
    decreases s.len(),
{
    if s.len() > 0 && is_space(s.last()) {
        lemma_trail_ws(s.drop_last());
        assert forall|i: int| s.len() - trail_ws(s) <= i < s.len() implies is_space(
            #[trigger] s[i],
        ) by {
            if i < s.len() - 1 {
                assert(s[i] == s.drop_last()[i]);
            }
        }
    }
}

/// A text with no whitespace and no upper-case ASCII letter is its own
/// normal form.
pub proof fn lemma_normalized_plain(s: Seq<char>)
    requires
        forall|i: int| 0 <= i < s.len() ==> !is_space(#[trigger] s[i]) && !is_ascii_upper(s[i]),
    ensures
        normalized(s) == s,
{
    assert(lead_ws(s) == 0);
    assert(trim_start(s) =~= s);
    assert(trail_ws(s) == 0);
    assert(trim(s) =~= s);
    assert(lower_seq(s) =~= s);
}

/// A text with no whitespace is its own trim.
pub proof fn lemma_trim_no_space(s: Seq<char>)
    requires
        forall|i: int| 0 <= i < s.len() ==> !is_space(#[trigger] s[i]),
    ensures
        trim(s) == s,
{
    assert(lead_ws(s) == 0);
    assert(trim_start(s) =~= s);
    assert(trail_ws(s) == 0);
    assert(trim(s) =~= s);
}

/// Characters of a string, in order.
pub fn char_vec(s: &str) -> (v: Vec<char>)
    ensures
        v@ == s@,
{
    let mut v: Vec<char> = Vec::new();
    for c in it: s.chars()
        invariant
            v@ == it.seq().take(it.index() as int),
    {
        v.push(c);
    }
    v
}

/// The number of leading whitespace characters of `s`.
pub fn count_lead_ws(s: &Vec<char>) -> (n: usize)
    ensures
        n == lead_ws(s@),
{
    proof {
        lemma_lead_ws(s@);
    }
    let mut i: usize = 0;
    while i < s.len() && is_whitespace(s[i])
        invariant
            i <= s.len(),
            i <= lead_ws(s@),
            lead_ws(s@) <= s.len(),
            forall|k: int| 0 <= k < lead_ws(s@) ==> is_space(#[trigger] s@[k]),
            lead_ws(s@) < s.len() ==> !is_space(s@[lead_ws(s@) as int]),
        decreases s.len() - i,
    {
        i += 1;
    }
    i
}

/// The number of trailing whitespace characters of `s`.
pub fn count_trail_ws(s: &Vec<char>) -> (n: usize)
    ensures
        n == trail_ws(s@),
{
    proof {
        lemma_trail_ws(s@);
    }
    let mut i: usize = 0;
    while i < s.len() && is_whitespace(s[s.len() - 1 - i])
        invariant
            i <= s.len(),
            i <= trail_ws(s@),
            trail_ws(s@) <= s.len(),
            forall|k: int| s.len() - trail_ws(s@) <= k < s.len() ==> is_space(#[trigger] s@[k]),
            trail_ws(s@) < s.len() ==> !is_space(s@[s.len() - trail_ws(s@) - 1]),
        decreases s.len() - i,
    {
        i += 1;
    }
    i
}

/// A slice of a character vector as a new vector.
pub fn slice_chars(s: &Vec<char>, from: usize, to: usize) -> (r: Vec<char>)
    requires
        from <= to <= s.len(),
    ensures
        r@ == s@.subrange(from as int, to as int),
{
    let mut r: Vec<char> = Vec::new();
    let mut i = from;
    while i < to
        invariant
            from <= i <= to <= s.len(),
            r@ == s@.subrange(from as int, i as int),
        decreases to - i,
    {
        r.push(s[i]);
        i += 1;
    }
    r
}

/// `str::trim` on a character vector.
pub fn trim_chars(s: &Vec<char>) -> (r: Vec<char>)
    ensures
        r@ == trim(s@),
{
    let a = count_lead_ws(s);
    proof {
        lemma_lead_ws(s@);
    }
    let t = slice_chars(s, a, s.len());
    let b = count_trail_ws(&t);
    proof {
        lemma_trail_ws(t@);
    }
    slice_chars(&t, 0, t.len() - b)
}

/// `str::trim_end` on a character vector.
pub fn trim_end_chars(s: &Vec<char>) -> (r: Vec<char>)
    ensures
        r@ == trim_end(s@),
{
    let b = count_trail_ws(s);
    proof {
        lemma_trail_ws(s@);
    }
    slice_chars(s, 0, s.len() - b)
}

/// `str::to_ascii_lowercase` on a character vector.
pub fn lower_chars(s: &Vec<char>) -> (r: Vec<char>)
    ensures
        r@ == lower_seq(s@),
{
    let mut r: Vec<char> = Vec::new();
    let mut i: usize = 0;
    while i < s.len()
        invariant
            i <= s.len(),
            r@ == lower_seq(s@.take(i as int)),
        decreases s.len() - i,
    {
        r.push(to_ascii_lower(s[i]));
        i += 1;
        assert(lower_seq(s@.take(i as int)) =~= lower_seq(s@.take(i - 1)).push(
            lower_char(s@[i - 1]),
        ));
    }
    assert(s@.take(s.len() as int) =~= s@);
    r
}

/// The trimmed, ASCII-lower-cased form of a string: the key on which the
/// vocabulary parsers match.
pub open spec fn normalized(s: Seq<char>) -> Seq<char> {
    lower_seq(trim(s))
}

pub fn normalize(s: &str) -> (r: Vec<char>)
    ensures
        r@ == normalized(s@),
{
    let cs = char_vec(s);
    let t = trim_chars(&cs);
    lower_chars(&t)
}

/// Whether a character vector spells the given string.
pub fn chars_eq_str(a: &Vec<char>, b: &str) -> (r: bool)
    ensures
        r == (a@ == b@),
{
    let bv = char_vec(b);
    chars_eq(a, &bv)
}

/// Equality of two character vectors.
pub fn chars_eq(a: &Vec<char>, b: &Vec<char>) -> (r: bool)
    ensures
        r == (a@ == b@),
{
    if a.len() != b.len() {
        return false;
    }
    let mut i: usize = 0;
    while i < a.len()
        invariant
            a.len() == b.len(),
            i <= a.len(),
            forall|k: int| 0 <= k < i ==> a@[k] == b@[k],
        decreases a.len() - i,
    {
        if a[i] != b[i] {
            return false;
        }
        i += 1;
    }
    assert(a@ =~= b@);
    true
}

/// Equality of two strings.
pub fn str_eq(a: &str, b: &str) -> (r: bool)
    ensures
        r == (a@ == b@),
{
    let av = char_vec(a);
    chars_eq_str(&av, b)
}

/// A string with the given characters.
pub fn string_from_chars(cs: &Vec<char>) -> (s: String)
    ensures
        s@ == cs@,
{
    let mut s = String::new();
    push_chars(&mut s, cs);
    s
}

/// Appends characters to a string.
pub fn push_chars(out: &mut String, cs: &Vec<char>)
    ensures
        final(out)@ == old(out)@ + cs@,
{
    let mut i: usize = 0;
    while i < cs.len()
        invariant
            i <= cs.len(),
            out@ == old(out)@ + cs@.take(i as int),
        decreases cs.len() - i,
    {
        out.push(cs[i]);
        i += 1;
        assert(cs@.take(i as int) =~= cs@.take(i - 1).push(cs@[i - 1]));
    }
    assert(cs@.take(cs.len() as int) =~= cs@);
}

/// An owned copy of a string slice.
pub fn to_owned_string(s: &str) -> (r: String)
    ensures
        r@ == s@,
{
    let mut r = String::new();
    r.append(s);
    r
}

// ---------------------------------------------------------------------------
// Splitting on whitespace and joining
// ---------------------------------------------------------------------------
/// Scanning state of `str::split_whitespace` after a prefix: the words
/// already closed and the word being read.
pub open spec fn split_state(s: Seq<char>) -> (Seq<Seq<char>>, Seq<char>)
    decreases s.len(),
{
    if s.len() == 0 {
        (Seq::empty(), Seq::empty())
    } else {
        let (ws, cur) = split_state(s.drop_last());
        if is_space(s.last()) {
            if cur.len() > 0 {
                (ws.push(cur), Seq::empty())
            } else {
                (ws, cur)
            }
        } else {
            (ws, cur.push(s.last()))
        }
    }
}

/// `str::split_whitespace`: the maximal runs of non-whitespace characters.
pub open spec fn words(s: Seq<char>) -> Seq<Seq<char>> {
    let (ws, cur) = split_state(s);
    if cur.len() > 0 {
        ws.push(cur)
    } else {
        ws
    }
}

/// `join` of a list of strings with a separator.
pub open spec fn join(ws: Seq<Seq<char>>, sep: Seq<char>) -> Seq<char>
    decreases ws.len(),
{
    if ws.len() == 0 {
        Seq::empty()
    } else if ws.len() == 1 {
        ws[0]
    } else {
        join(ws.drop_last(), sep) + sep + ws.last()
    }
}

/// Whitespace runs collapsed to one space, ends trimmed.
pub open spec fn squash_ws(s: Seq<char>) -> Seq<char> {
    join(words(s), seq![' '])
}

/// Views of a vector of strings.
pub open spec fn strings_view(v: Seq<String>) -> Seq<Seq<char>> {
    v.map_values(|s: String| s@)
}

pub proof fn lemma_split_state_words(s: Seq<char>)
    ensures
        forall|k: int|
            0 <= k < split_state(s).0.len() ==> (#[trigger] split_state(s).0[k]).len() > 0,
        forall|k: int, j: int|
            0 <= k < split_state(s).0.len() && 0 <= j < split_state(s).0[k].len() ==> !is_space(
                #[trigger] split_state(s).0[k][j],
            ),
        forall|j: int|
            0 <= j < split_state(s).1.len() ==> !is_space(#[trigger] split_state(s).1[j]),
    decreases s.len(),
{
    if s.len() > 0 {
        lemma_split_state_words(s.drop_last());
        let (ws, cur) = split_state(s.drop_last());
        if is_space(s.last()) && cur.len() > 0 {
            let nws = ws.push(cur);
            assert(split_state(s).0 == nws);
            assert forall|k: int| 0 <= k < nws.len() implies (#[trigger] nws[k]).len() > 0 by {
                if k < ws.len() {
                    assert(nws[k] == ws[k]);
                }
            }
            assert forall|k: int, j: int|
                0 <= k < nws.len() && 0 <= j < nws[k].len() implies !is_space(
                #[trigger] nws[k][j],
            ) by {
                if k < ws.len() {
                    assert(nws[k] == ws[k]);
                } else {
                    assert(nws[k] == cur);
                }
            }
        }
    }
}

proof fn lemma_split_state_len(s: Seq<char>)
    ensures
        split_state(s).0.len() + split_state(s).1.len() <= s.len(),
    decreases s.len(),
{
    if s.len() > 0 {
        lemma_split_state_len(s.drop_last());
    }
}

/// A text has no more words than characters.
pub proof fn lemma_words_len(s: Seq<char>)
    ensures
        words(s).len() <= s.len(),
{
    lemma_split_state_len(s);
}

/// The words of a text are non-empty and hold no whitespace.
pub proof fn lemma_words(s: Seq<char>)
    ensures
        forall|k: int| 0 <= k < words(s).len() ==> (#[trigger] words(s)[k]).len() > 0,
        forall|k: int, j: int|
            0 <= k < words(s).len() && 0 <= j < words(s)[k].len() ==> !is_space(
                #[trigger] words(s)[k][j],
            ),
{
    lemma_split_state_words(s);
}

proof fn lemma_split_state_append_word(s: Seq<char>, t: Seq<char>)
    requires
        forall|i: int| 0 <= i < t.len() ==> !is_space(#[trigger] t[i]),
    ensures
        split_state(s + t) == (split_state(s).0, split_state(s).1 + t),
    decreases t.len(),
{
    if t.len() == 0 {
        assert(s + t =~= s);
        assert(split_state(s).1 + t =~= split_state(s).1);
    } else {
        lemma_split_state_append_word(s, t.drop_last());
        assert((s + t).drop_last() =~= s + t.drop_last());
        assert((s + t).last() == t.last());
        assert(split_state(s).1 + t =~= (split_state(s).1 + t.drop_last()).push(t.last()));
    }
}

proof fn lemma_split_state_join(ws: Seq<Seq<char>>)
    requires
        ws.len() > 0,
        forall|k: int| 0 <= k < ws.len() ==> (#[trigger] ws[k]).len() > 0,
        forall|k: int, j: int| 0 <= k < ws.len() && 0 <= j < ws[k].len() ==> !is_space(#[trigger] ws[k][j]),
    ensures
        split_state(join(ws, seq![' '])) == (ws.drop_last(), ws.last()),
    decreases ws.len(),
{
    if ws.len() == 1 {
        let w = ws[0];
        assert forall|i: int| 0 <= i < w.len() implies !is_space(#[trigger] w[i]) by {
            assert(!is_space(ws[0][i]));
        }
        lemma_split_state_append_word(Seq::empty(), w);
        assert(Seq::<char>::empty() + w =~= w);
        assert(Seq::<char>::empty() + w =~= w);
        assert(ws.drop_last() =~= Seq::<Seq<char>>::empty());
    } else {
        let prev = ws.drop_last();
        let w = ws.last();
        assert forall|k: int| 0 <= k < prev.len() implies (#[trigger] prev[k]).len() > 0 by {
            assert(prev[k] == ws[k]);
        }
        assert forall|k: int, j: int| 0 <= k < prev.len() && 0 <= j < prev[k].len() implies !is_space(
            #[trigger] prev[k][j],
        ) by {
            assert(prev[k] == ws[k]);
        }
        lemma_split_state_join(prev);
        let x = join(prev, seq![' ']);
        assert(join(ws, seq![' ']) == x + seq![' '] + w);
        let xs = x + seq![' '];
        assert(xs.drop_last() =~= x);
        assert(xs.last() == ' ');
        assert(prev.last().len() > 0);
        assert(prev.drop_last().push(prev.last()) =~= prev);
        assert(split_state(xs) == (prev, Seq::<char>::empty()));
        assert forall|i: int| 0 <= i < w.len() implies !is_space(#[trigger] w[i]) by {
            assert(!is_space(ws[ws.len() - 1][i]));
        }
        lemma_split_state_append_word(xs, w);
        assert(Seq::<char>::empty() + w =~= w);
    }
}

/// Words joined by single spaces split back into the same words.
pub proof fn lemma_words_join(ws: Seq<Seq<char>>)
    requires
        forall|k: int| 0 <= k < ws.len() ==> (#[trigger] ws[k]).len() > 0,
        forall|k: int, j: int| 0 <= k < ws.len() && 0 <= j < ws[k].len() ==> !is_space(#[trigger] ws[k][j]),
    ensures
        words(join(ws, seq![' '])) == ws,
{
    if ws.len() > 0 {
        lemma_split_state_join(ws);
        assert(ws.drop_last().push(ws.last()) =~= ws);
    }
}

/// `str::split_whitespace`, each word as a `String`.
pub fn split_whitespace(s: &Vec<char>) -> (r: Vec<String>)
    ensures
        strings_view(r@) == words(s@),
{
    let mut ws: Vec<String> = Vec::new();
    let mut cur: Vec<char> = Vec::new();
    let mut i: usize = 0;
    while i < s.len()
        invariant
            i <= s.len(),
            strings_view(ws@) == split_state(s@.take(i as int)).0,
            cur@ == split_state(s@.take(i as int)).1,
        decreases s.len() - i,
    {
        assert(s@.take(i + 1).drop_last() =~= s@.take(i as int));
        let c = s[i];
        if is_whitespace(c) {
            if cur.len() > 0 {
                let w = string_from_chars(&cur);
                ws.push(w);
                cur = Vec::new();
                assert(strings_view(ws@) =~= strings_view(ws@.drop_last()).push(w@));
            }
        } else {
            cur.push(c);
        }
        i += 1;
    }
    assert(s@.take(s.len() as int) =~= s@);
    if cur.len() > 0 {
        let w = string_from_chars(&cur);
        ws.push(w);
        assert(strings_view(ws@) =~= strings_view(ws@.drop_last()).push(w@));
    }
    ws
}

/// Joins strings with a separator.
pub fn join_strings(ws: &Vec<String>, sep: &str) -> (r: String)
    ensures
        r@ == join(strings_view(ws@), sep@),
{
    let mut r = String::new();
    let mut i: usize = 0;
    while i < ws.len()
        invariant
            i <= ws.len(),
            r@ == join(strings_view(ws@.take(i as int)), sep@),
        decreases ws.len() - i,
    {
        assert(strings_view(ws@.take(i + 1)).drop_last() =~= strings_view(ws@.take(i as int)));
        if i > 0 {
            r.append(sep);
        }
        r.append(ws[i].as_str());
        i += 1;
    }
    assert(ws@.take(ws.len() as int) =~= ws@);
    r
}

/// `split_whitespace` followed by `join(" ")`.
pub fn squash_whitespace(s: &Vec<char>) -> (r: String)
    ensures
        r@ == squash_ws(s@),
{
    let ws = split_whitespace(s);
    let sp = " ";
    proof {
        reveal_strlit(" ");
        assert(sp@ =~= seq![' ']);
    }
    join_strings(&ws, sp)
}

/// `s` begins with `p`.
pub open spec fn starts_with(s: Seq<char>, p: Seq<char>) -> bool {
    p.len() <= s.len() && s.take(p.len() as int) == p
}

/// `str::starts_with`.
pub fn has_prefix(s: &str, p: &str) -> (r: bool)
    ensures
        r == starts_with(s@, p@),
{
    let sv = char_vec(s);
    let pv = char_vec(p);
    if pv.len() > sv.len() {
        return false;
    }
    let head = slice_chars(&sv, 0, pv.len());
    assert(head@ =~= sv@.take(pv.len() as int));
    chars_eq(&head, &pv)
}

/// A copy of a list of strings.
pub fn copy_strings(v: &Vec<String>) -> (r: Vec<String>)
    ensures
        strings_view(r@) == strings_view(v@),
{
    let mut r: Vec<String> = Vec::new();
    let mut i: usize = 0;
    while i < v.len()
        invariant
            i <= v.len(),
            strings_view(r@) == strings_view(v@.take(i as int)),
        decreases v.len() - i,
    {
        r.push(to_owned_string(v[i].as_str()));
        i += 1;
        assert(strings_view(v@.take(i as int)) =~= strings_view(v@.take(i - 1)).push(v@[i - 1]@));
        assert(strings_view(r@) =~= strings_view(r@.drop_last()).push(r@.last()@));
    }
    assert(v@.take(v.len() as int) =~= v@);
    r
}

} // verus!
