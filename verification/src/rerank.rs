//! The lexical signal of the rerank: the task and an item are compared as
//! sets of word tokens (Jaccard overlap). The weighting of the signals is
//! done in floating point by the caller; this module counts.
use vstd::prelude::*;
use crate::clock::Timestamp;
use crate::text::{
    char_vec, is_alphanumeric, lower_char, lower_seq, split_whitespace, str_eq, string_from_chars,
    strings_view, to_ascii_lower, alphanumeric, words,
};

verus! {

broadcast use vstd::seq_lib::group_seq_properties;

/// A word reduced to its alphanumeric characters, ASCII-lower-cased.
pub open spec fn token_of(w: Seq<char>) -> Seq<char> {
    lower_seq(w.filter(|c: char| alphanumeric(c)))
}

/// Tokens longer than two bytes count.
pub open spec fn long_enough(t: Seq<char>) -> bool {
    vstd::utf8::encode_utf8(t).len() > 2
}

/// The counted tokens of a list of words, in order.
pub open spec fn token_list(ws: Seq<Seq<char>>) -> Seq<Seq<char>>
    decreases ws.len(),
{
    if ws.len() == 0 {
        Seq::empty()
    } else {
        let t = token_of(ws.last());
        if long_enough(t) {
            token_list(ws.drop_last()).push(t)
        } else {
            token_list(ws.drop_last())
        }
    }
}

/// The tokens in order of first appearance, each once.
pub open spec fn first_occurrences(ts: Seq<Seq<char>>) -> Seq<Seq<char>>
    decreases ts.len(),
{
    if ts.len() == 0 {
        Seq::empty()
    } else {
        let r = first_occurrences(ts.drop_last());
        if r.contains(ts.last()) {
            r
        } else {
            r.push(ts.last())
        }
    }
}

/// The token set of a text.
pub open spec fn token_set(s: Seq<char>) -> Set<Seq<char>> {
    token_list(words(s)).to_set()
}

fn token_of_word(w: &str) -> (r: String)
    ensures
        r@ == token_of(w@),
{
    let cs = char_vec(w);
    let mut out: Vec<char> = Vec::new();
    let mut i: usize = 0;
    while i < cs.len()
        invariant
            i <= cs.len(),
            out@ == lower_seq(cs@.take(i as int).filter(|c: char| alphanumeric(c))),
        decreases cs.len() - i,
    {
        let c = cs[i];
        assert(cs@.take(i + 1).drop_last() =~= cs@.take(i as int));
        reveal_with_fuel(Seq::filter, 1);
        if is_alphanumeric(c) {
            let ghost before = out@;
            out.push(to_ascii_lower(c));
            assert(lower_seq(cs@.take(i + 1).filter(|c: char| alphanumeric(c))) =~= lower_seq(
                cs@.take(i as int).filter(|c: char| alphanumeric(c)),
            ).push(lower_char(c)));
        }
        i += 1;
    }
    assert(cs@.take(cs.len() as int) =~= w@);
    string_from_chars(&out)
}

fn contains_string(v: &Vec<String>, x: &str) -> (r: bool)
    ensures
        r == strings_view(v@).contains(x@),
{
    let mut i: usize = 0;
    while i < v.len()
        invariant
            i <= v.len(),
            forall|j: int| 0 <= j < i ==> strings_view(v@)[j] != x@,
        decreases v.len() - i,
    {
        if str_eq(v[i].as_str(), x) {
            assert(strings_view(v@)[i as int] == x@);
            return true;
        }
        i += 1;
    }
    false
}

/// The distinct tokens of a text, in order of first appearance.
pub fn tokenize(s: &str) -> (r: Vec<String>)
    ensures
        strings_view(r@) == first_occurrences(token_list(words(s@))),
        strings_view(r@).no_duplicates(),
        strings_view(r@).to_set() == token_set(s@),
        r.len() <= s@.len(),
{
    let cs = char_vec(s);
    let ws = split_whitespace(&cs);
    proof {
        crate::text::lemma_words_len(s@);
    }
    let mut r: Vec<String> = Vec::new();
    let mut i: usize = 0;
    while i < ws.len()
        invariant
            i <= ws.len(),
            strings_view(ws@) == words(s@),
            strings_view(r@) == first_occurrences(token_list(strings_view(ws@.take(i as int)))),
            strings_view(r@).no_duplicates(),
            strings_view(r@).to_set() == token_list(strings_view(ws@.take(i as int))).to_set(),
            r.len() <= i,
            ws.len() <= s@.len(),
        decreases ws.len() - i,
    {
        let ghost prev = token_list(strings_view(ws@.take(i as int)));
        assert(strings_view(ws@.take(i + 1)).drop_last() =~= strings_view(ws@.take(i as int)));
        assert(strings_view(ws@.take(i + 1)).last() == ws@[i as int]@);
        let t = token_of_word(ws[i].as_str());
        if t.as_str().as_bytes().len() > 2 {
            assert(token_list(strings_view(ws@.take(i + 1))) == prev.push(t@));
            assert(prev.push(t@).to_set() =~= prev.to_set().insert(t@));
            assert(prev.push(t@).drop_last() =~= prev);
            if !contains_string(&r, t.as_str()) {
                let ghost before = strings_view(r@);
                r.push(t);
                assert(strings_view(r@) =~= before.push(t@));
                assert(before.push(t@).to_set() =~= before.to_set().insert(t@));
            } else {
                assert(strings_view(r@).to_set().insert(t@) =~= strings_view(r@).to_set());
            }
        } else {
            assert(token_list(strings_view(ws@.take(i + 1))) == prev);
        }
        i += 1;
    }
    assert(ws@.take(ws.len() as int) =~= ws@);
    r
}

proof fn lemma_filter_to_set(a: Seq<Seq<char>>, b: Set<Seq<char>>)
    ensures
        a.filter(|x: Seq<char>| b.contains(x)).to_set() == a.to_set().intersect(b),
        a.no_duplicates() ==> a.filter(|x: Seq<char>| b.contains(x)).no_duplicates(),
    decreases a.len(),
{
    let p = |x: Seq<char>| b.contains(x);
    reveal_with_fuel(Seq::filter, 1);
    if a.len() > 0 {
        lemma_filter_to_set(a.drop_last(), b);
        assert(a.drop_last().push(a.last()) =~= a);
        assert(a.to_set() =~= a.drop_last().to_set().insert(a.last()));
        if p(a.last()) {
            assert(a.filter(p) == a.drop_last().filter(p).push(a.last()));
            assert(a.filter(p).to_set() =~= a.drop_last().filter(p).to_set().insert(a.last()));
            assert(a.filter(p).to_set() =~= a.to_set().intersect(b));
            if a.no_duplicates() {
                let f = a.drop_last().filter(p);
                assert(!a.drop_last().contains(a.last()));
                if f.contains(a.last()) {
                    a.drop_last().lemma_filter_contains_rev(p, a.last());
                }
                assert(a.filter(p).no_duplicates());
            }
        } else {
            assert(a.filter(p) == a.drop_last().filter(p));
            assert(a.filter(p).to_set() =~= a.to_set().intersect(b));
        }
    } else {
        assert(a.filter(p).to_set() =~= a.to_set().intersect(b));
    }
}

/// The sizes of the intersection and of the union of the token sets of the
/// task and of an item's title and body, the numerator and denominator of
/// their Jaccard overlap.
pub fn lexical_overlap_counts(task: &str, title: &str, body_text: &str) -> (r: (usize, usize))
    requires
        task@.len() + title@.len() + body_text@.len() < usize::MAX,
    ensures
        ({
            let a = token_set(task@);
            let b = token_set(title@ + seq![' '] + body_text@);
            &&& r.0 == a.intersect(b).len()
            &&& r.1 == a.union(b).len()
        }),
{
    let ta = tokenize(task);
    let mut text = String::new();
    text.append(title);
    text.push(' ');
    text.append(body_text);
    let tb = tokenize(text.as_str());
    assert(text@ =~= title@ + seq![' '] + body_text@);
    let ghost a = strings_view(ta@);
    let ghost bset = strings_view(tb@).to_set();
    let ghost p = |x: Seq<char>| bset.contains(x);
    let mut inter: usize = 0;
    let mut i: usize = 0;
    while i < ta.len()
        invariant
            i <= ta.len(),
            a == strings_view(ta@),
            bset == strings_view(tb@).to_set(),
            p == (|x: Seq<char>| bset.contains(x)),
            inter == a.take(i as int).filter(p).len(),
            inter <= i,
        decreases ta.len() - i,
    {
        assert(a.take(i + 1).drop_last() =~= a.take(i as int));
        assert(a.take(i + 1).last() == ta@[i as int]@);
        reveal_with_fuel(Seq::filter, 1);
        if contains_string(&tb, ta[i].as_str()) {
            inter += 1;
        }
        i += 1;
    }
    assert(a.take(ta.len() as int) =~= a);
    proof {
        lemma_filter_to_set(a, bset);
        a.filter(p).unique_seq_to_set();
        a.unique_seq_to_set();
        strings_view(tb@).unique_seq_to_set();
        vstd::set_lib::lemma_set_intersect_union_lens(a.to_set(), bset);
        assert(a.to_set() + bset == a.to_set().union(bset));
    }
    (inter, ta.len() + tb.len() - inter)
}

/// An instant in nanoseconds since 1970-01-01T00:00:00Z.
pub open spec fn instant_nanos(t: Timestamp) -> int {
    t.unix_seconds * 1_000_000_000 + t.nanosecond
}

/// How many whole seconds old an item modified at `modified` is at `now`:
/// the elapsed time truncated to seconds, and zero when `modified` lies in
/// the future.
pub open spec fn age_seconds_spec(now: Timestamp, modified: Timestamp) -> int {
    let d = instant_nanos(now) - instant_nanos(modified);
    if d <= 0 {
        0
    } else {
        d / 1_000_000_000
    }
}

pub fn age_seconds(now: Timestamp, modified: Timestamp) -> (r: u64)
    requires
        now.nanosecond < 1_000_000_000,
        modified.nanosecond < 1_000_000_000,
    ensures
        r == age_seconds_spec(now, modified),
{
    let a: i128 = (now.unix_seconds as i128) * 1_000_000_000 + (now.nanosecond as i128);
    let b: i128 = (modified.unix_seconds as i128) * 1_000_000_000 + (modified.nanosecond as i128);
    let d: i128 = a - b;
    if d <= 0 {
        0
    } else {
        let q: i128 = d / 1_000_000_000;
        assert(q <= u64::MAX) by (nonlinear_arith)
            requires
                d <= (u64::MAX as int) * 1_000_000_000 + 999_999_999,
                q == d / 1_000_000_000,
                d > 0,
        {}
        q as u64
    }
}

} // verus!
