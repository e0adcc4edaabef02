//! The order of `String`s (code point by code point, which is the order of
//! their UTF-8 bytes) and sorted lists without duplicates.
use vstd::prelude::*;
use crate::text::{char_vec, str_eq, strings_view};

verus! {

/// `a` comes strictly before `b`.
pub open spec fn seq_lt(a: Seq<char>, b: Seq<char>) -> bool
    decreases a.len(),
{
    if a.len() == 0 {
        b.len() > 0
    } else if b.len() == 0 {
        false
    } else if a[0] != b[0] {
        a[0] < b[0]
    } else {
        seq_lt(a.drop_first(), b.drop_first())
    }
}

/// Every element comes strictly before the ones after it.
pub open spec fn strictly_sorted(s: Seq<Seq<char>>) -> bool {
    forall|i: int, j: int| 0 <= i < j < s.len() ==> seq_lt(#[trigger] s[i], #[trigger] s[j])
}

/// The elements of a finite set of texts, in order.
pub open spec fn sorted_elements(s: Set<Seq<char>>) -> Seq<Seq<char>> {
    choose|q: Seq<Seq<char>>| strictly_sorted(q) && q.to_set() == s
}

pub proof fn lemma_lt_irreflexive(a: Seq<char>)
    ensures
        !seq_lt(a, a),
    decreases a.len(),
{
    if a.len() > 0 {
        lemma_lt_irreflexive(a.drop_first());
    }
}

/// Of two different texts, exactly one comes first.
pub proof fn lemma_lt_total(a: Seq<char>, b: Seq<char>)
    ensures
        a != b ==> (seq_lt(a, b) || seq_lt(b, a)),
        !(seq_lt(a, b) && seq_lt(b, a)),
    decreases a.len(),
{
    if a.len() > 0 && b.len() > 0 {
        if a[0] == b[0] {
            lemma_lt_total(a.drop_first(), b.drop_first());
            if a != b {
                assert(a =~= seq![a[0]] + a.drop_first());
                assert(b =~= seq![b[0]] + b.drop_first());
            }
        } else {
        }
    } else if a.len() == 0 && b.len() == 0 {
        assert(a =~= b);
    }
}

pub proof fn lemma_lt_transitive(a: Seq<char>, b: Seq<char>, c: Seq<char>)
    requires
        seq_lt(a, b),
        seq_lt(b, c),
    ensures
        seq_lt(a, c),
    decreases a.len(),
{
    if a.len() > 0 && a[0] == b[0] && b[0] == c[0] {
        lemma_lt_transitive(a.drop_first(), b.drop_first(), c.drop_first());
    }
}

/// Two sorted lists without duplicates that hold the same texts are equal.
pub proof fn lemma_sorted_unique(a: Seq<Seq<char>>, b: Seq<Seq<char>>)
    requires
        strictly_sorted(a),
        strictly_sorted(b),
        a.to_set() == b.to_set(),
    ensures
        a == b,
    decreases a.len(),
{
    if a.len() == 0 {
        if b.len() > 0 {
            assert(b.to_set().contains(b[0]));
        }
        assert(a =~= b);
    } else if b.len() == 0 {
        assert(a.to_set().contains(a[0]));
    } else {
        assert(b.to_set().contains(a[0]));
        assert(a.to_set().contains(b[0]));
        let j = choose|j: int| 0 <= j < b.len() && b[j] == a[0];
        let i = choose|i: int| 0 <= i < a.len() && a[i] == b[0];
        if i > 0 && j > 0 {
            lemma_lt_total(a[0], b[0]);
        }
        assert(a[0] == b[0]);
        let a1 = a.drop_first();
        let b1 = b.drop_first();
        assert forall|x: Seq<char>| a1.to_set().contains(x) implies b1.to_set().contains(x) by {
            let k = choose|k: int| 0 <= k < a1.len() && a1[k] == x;
            assert(a[k + 1] == x);
            assert(seq_lt(a[0], a[k + 1]));
            lemma_lt_irreflexive(x);
            assert(b.to_set().contains(x));
            let m = choose|m: int| 0 <= m < b.len() && b[m] == x;
            assert(m != 0);
            assert(b1[m - 1] == x);
        }
        assert forall|x: Seq<char>| b1.to_set().contains(x) implies a1.to_set().contains(x) by {
            let k = choose|k: int| 0 <= k < b1.len() && b1[k] == x;
            assert(b[k + 1] == x);
            assert(seq_lt(b[0], b[k + 1]));
            lemma_lt_irreflexive(x);
            assert(a.to_set().contains(x));
            let m = choose|m: int| 0 <= m < a.len() && a[m] == x;
            assert(m != 0);
            assert(a1[m - 1] == x);
        }
        assert(a1.to_set() =~= b1.to_set());
        assert forall|p: int, q: int| 0 <= p < q < a1.len() implies seq_lt(
            #[trigger] a1[p],
            #[trigger] a1[q],
        ) by {
            assert(a1[p] == a[p + 1] && a1[q] == a[q + 1]);
        }
        assert forall|p: int, q: int| 0 <= p < q < b1.len() implies seq_lt(
            #[trigger] b1[p],
            #[trigger] b1[q],
        ) by {
            assert(b1[p] == b[p + 1] && b1[q] == b[q + 1]);
        }
        lemma_sorted_unique(a1, b1);
        assert(a =~= seq![a[0]] + a1);
        assert(b =~= seq![b[0]] + b1);
    }
}

/// A sorted list without duplicates is the ordered list of its elements.
pub proof fn lemma_sorted_elements(q: Seq<Seq<char>>)
    requires
        strictly_sorted(q),
    ensures
        sorted_elements(q.to_set()) == q,
{
    let s = sorted_elements(q.to_set());
    assert(strictly_sorted(s) && s.to_set() == q.to_set());
    lemma_sorted_unique(s, q);
}

/// `a < b` on texts.
pub fn str_lt(a: &str, b: &str) -> (r: bool)
    ensures
        r == seq_lt(a@, b@),
{
    let x = char_vec(a);
    let y = char_vec(b);
    let mut i: usize = 0;
    assert(x@.skip(0) =~= x@ && y@.skip(0) =~= y@);
    while i < x.len() && i < y.len()
        invariant
            i <= x.len(),
            i <= y.len(),
            x@ == a@,
            y@ == b@,
            seq_lt(a@, b@) == seq_lt(x@.skip(i as int), y@.skip(i as int)),
        decreases x.len() - i,
    {
        let ghost xs = x@.skip(i as int);
        let ghost ys = y@.skip(i as int);
        assert(xs[0] == x@[i as int] && ys[0] == y@[i as int]);
        if x[i] != y[i] {
            return x[i] < y[i];
        }
        assert(xs.drop_first() =~= x@.skip(i + 1));
        assert(ys.drop_first() =~= y@.skip(i + 1));
        i += 1;
    }
    i < y.len()
}

/// Inserts a text into a sorted list without duplicates, unless it is
/// there already.
pub fn insert_sorted(v: &mut Vec<String>, x: String)
    requires
        strictly_sorted(strings_view(old(v)@)),
    ensures
        strictly_sorted(strings_view(final(v)@)),
        strings_view(final(v)@).to_set() == strings_view(old(v)@).to_set().insert(x@),
{
    let ghost s0 = strings_view(v@);
    let mut k: usize = 0;
    while k < v.len() && str_lt(v[k].as_str(), x.as_str())
        invariant
            k <= v.len(),
            s0 == strings_view(v@),
            forall|i: int| 0 <= i < k ==> seq_lt(#[trigger] s0[i], x@),
        decreases v.len() - k,
    {
        k += 1;
    }
    if k < v.len() && str_eq(v[k].as_str(), x.as_str()) {
        assert(s0[k as int] == x@);
        assert(s0.to_set().insert(x@) =~= s0.to_set());
        return;
    }
    proof {
        if k < v.len() {
            lemma_lt_total(s0[k as int], x@);
        }
    }
    v.insert(k, x);
    let ghost s1 = strings_view(v@);
    assert(s1 =~= s0.insert(k as int, x@));
    assert forall|i: int, j: int| 0 <= i < j < s1.len() implies seq_lt(
        #[trigger] s1[i],
        #[trigger] s1[j],
    ) by {
        if j < k {
            assert(s1[i] == s0[i] && s1[j] == s0[j]);
        } else if j == k {
            assert(s1[i] == s0[i]);
        } else if i == k {
            assert(s1[j] == s0[j - 1]);
            if j - 1 > k {
                lemma_lt_transitive(x@, s0[k as int], s0[j - 1]);
            }
        } else if i < k {
            assert(s1[i] == s0[i] && s1[j] == s0[j - 1]);
        } else {
            assert(s1[i] == s0[i - 1] && s1[j] == s0[j - 1]);
        }
    }
    assert forall|y: Seq<char>| s1.to_set().contains(y) <==> s0.to_set().insert(x@).contains(y) by {
        if s1.contains(y) {
            let m = choose|m: int| 0 <= m < s1.len() && s1[m] == y;
            if m < k {
                assert(s0[m] == y);
            } else if m > k {
                assert(s0[m - 1] == y);
            }
        }
        if s0.contains(y) {
            let m = choose|m: int| 0 <= m < s0.len() && s0[m] == y;
            if m < k {
                assert(s1[m] == y);
            } else {
                assert(s1[m + 1] == y);
            }
        }
        if y == x@ {
            assert(s1[k as int] == y);
        }
    }
    assert(s1.to_set() =~= s0.to_set().insert(x@));
}

} // verus!
