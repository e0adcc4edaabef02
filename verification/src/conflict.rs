//! Conflict detection: active items are grouped by (scope, claim key); any
//! group with more than one item is flagged.
use vstd::prelude::*;
use crate::ids::{is_ulid_text, new_id};
use crate::schema::{KnowledgeRecord, Status};
use crate::text::{str_eq, strings_view, to_owned_string};

verus! {

/// A group of active items that make claims under the same key in the
/// same scope.
#[derive(Debug)]
pub struct Conflict {
    /// A fresh id for this conflict instance.
    pub id: String,
    pub claim_key: String,
    pub scope: String,
    pub item_ids: Vec<String>,
}

/// The grouping key of an item: its scope's name and its claim key.
pub open spec fn conflict_key(r: KnowledgeRecord) -> (Seq<char>, Seq<char>) {
    (r.scope.name(), r.claim_key_spec())
}

pub open spec fn is_active(r: KnowledgeRecord) -> bool {
    r.status == Status::Active
}

/// The keys of the active items, each once, in order of first appearance.
pub open spec fn keys_in_order(items: Seq<KnowledgeRecord>) -> Seq<(Seq<char>, Seq<char>)>
    decreases items.len(),
{
    if items.len() == 0 {
        Seq::empty()
    } else {
        let ks = keys_in_order(items.drop_last());
        let it = items.last();
        if is_active(it) && !ks.contains(conflict_key(it)) {
            ks.push(conflict_key(it))
        } else {
            ks
        }
    }
}

/// The ids of the active items with a key, in order.
pub open spec fn ids_with_key(items: Seq<KnowledgeRecord>, k: (Seq<char>, Seq<char>)) -> Seq<
    Seq<char>,
>
    decreases items.len(),
{
    if items.len() == 0 {
        Seq::empty()
    } else {
        let ids = ids_with_key(items.drop_last(), k);
        let it = items.last();
        if is_active(it) && conflict_key(it) == k {
            ids.push(it.id@)
        } else {
            ids
        }
    }
}

/// The keys shared by more than one active item, in order of first
/// appearance.
pub open spec fn conflicting_keys(items: Seq<KnowledgeRecord>) -> Seq<(Seq<char>, Seq<char>)> {
    keys_in_order(items).filter(|k: (Seq<char>, Seq<char>)| ids_with_key(items, k).len() > 1)
}

/// A key is listed exactly when some active item has it.
pub proof fn lemma_keys_in_order(items: Seq<KnowledgeRecord>, k: (Seq<char>, Seq<char>))
    ensures
        keys_in_order(items).no_duplicates(),
        keys_in_order(items).contains(k) <==> ids_with_key(items, k).len() > 0,
    decreases items.len(),
{
    if items.len() > 0 {
        lemma_keys_in_order(items.drop_last(), k);
        let ks = keys_in_order(items.drop_last());
        let prev = ids_with_key(items.drop_last(), k);
        let it = items.last();
        let key = conflict_key(it);
        if is_active(it) && !ks.contains(key) {
            let nk = ks.push(key);
            assert(keys_in_order(items) == nk);
            assert forall|i: int, j: int| 0 <= i < nk.len() && 0 <= j < nk.len() && i != j implies nk[i]
                != nk[j] by {
                if j == nk.len() - 1 {
                    assert(nk[i] == ks[i]);
                } else if i == nk.len() - 1 {
                    assert(nk[j] == ks[j]);
                }
            }
            if key == k {
                assert(nk[nk.len() - 1] == k);
                assert(ids_with_key(items, k) == prev.push(it.id@));
            } else {
                assert(ids_with_key(items, k) == prev);
                if nk.contains(k) {
                    let i = choose|i: int| 0 <= i < nk.len() && nk[i] == k;
                    assert(i < ks.len());
                    assert(ks[i] == k);
                }
                if ks.contains(k) {
                    let i = choose|i: int| 0 <= i < ks.len() && ks[i] == k;
                    assert(nk[i] == k);
                }
            }
        } else {
            assert(keys_in_order(items) == ks);
            if is_active(it) && key == k {
                assert(ids_with_key(items, k) == prev.push(it.id@));
            } else {
                assert(ids_with_key(items, k) == prev);
            }
        }
    }
}

/// Whether `x` is the id of an active item with key `k`.
pub open spec fn is_active_id_with_key(
    items: Seq<KnowledgeRecord>,
    k: (Seq<char>, Seq<char>),
    x: Seq<char>,
) -> bool {
    exists|j: int|
        0 <= j < items.len() && is_active(#[trigger] items[j]) && conflict_key(items[j]) == k
            && items[j].id@ == x
}

/// Every id in a group is the id of an active item with the group's key,
/// listed in the order of the items.
pub proof fn lemma_ids_with_key_members(items: Seq<KnowledgeRecord>, k: (Seq<char>, Seq<char>))
    ensures
        forall|i: int|
            0 <= i < ids_with_key(items, k).len() ==> is_active_id_with_key(
                items,
                k,
                #[trigger] ids_with_key(items, k)[i],
            ),
    decreases items.len(),
{
    if items.len() > 0 {
        lemma_ids_with_key_members(items.drop_last(), k);
        let prev = ids_with_key(items.drop_last(), k);
        let ids = ids_with_key(items, k);
        let it = items.last();
        let last = items.len() - 1;
        assert(items[last] == it);
        assert forall|i: int| 0 <= i < ids.len() implies is_active_id_with_key(
            items,
            k,
            #[trigger] ids[i],
        ) by {
            if i < prev.len() {
                if is_active(it) && conflict_key(it) == k {
                    assert(ids[i] == prev[i]);
                } else {
                    assert(ids == prev);
                }
                assert(is_active_id_with_key(items.drop_last(), k, prev[i]));
                let j = choose|j: int|
                    0 <= j < items.drop_last().len() && is_active(#[trigger] items.drop_last()[j])
                        && conflict_key(items.drop_last()[j]) == k && items.drop_last()[j].id@
                        == prev[i];
                assert(items[j] == items.drop_last()[j]);
            } else {
                assert(is_active(it) && conflict_key(it) == k);
                assert(ids[i] == it.id@);
                assert(is_active(items[last]));
            }
        }
    } else {
        assert(ids_with_key(items, k).len() == 0);
    }
}

/// The ids of all active items with the key are in its group.
pub proof fn lemma_ids_with_key_complete(items: Seq<KnowledgeRecord>, j: int)
    requires
        0 <= j < items.len(),
        is_active(items[j]),
    ensures
        ids_with_key(items, conflict_key(items[j])).contains(items[j].id@),
    decreases items.len(),
{
    let k = conflict_key(items[j]);
    if j < items.len() - 1 {
        assert(items.drop_last()[j] == items[j]);
        lemma_ids_with_key_complete(items.drop_last(), j);
        let prev = ids_with_key(items.drop_last(), k);
        let i = choose|i: int| 0 <= i < prev.len() && prev[i] == items[j].id@;
        assert(ids_with_key(items, k)[i] == items[j].id@);
    } else {
        let ids = ids_with_key(items, k);
        assert(ids[ids.len() - 1] == items[j].id@);
    }
}

/// The positions, in order, of the active items with a key.
spec fn count_with_key(items: Seq<KnowledgeRecord>, k: (Seq<char>, Seq<char>), n: int) -> nat
    decreases n,
{
    if n <= 0 {
        0
    } else {
        count_with_key(items, k, n - 1) + (if is_active(items[n - 1]) && conflict_key(items[n - 1])
            == k {
            1nat
        } else {
            0nat
        })
    }
}

proof fn lemma_count_with_key(items: Seq<KnowledgeRecord>, k: (Seq<char>, Seq<char>), n: int)
    requires
        0 <= n <= items.len(),
    ensures
        ids_with_key(items.take(n), k).len() == count_with_key(items, k, n),
    decreases n,
{
    if n > 0 {
        lemma_count_with_key(items, k, n - 1);
        assert(items.take(n).drop_last() =~= items.take(n - 1));
        assert(items.take(n).last() == items[n - 1]);
    }
}

proof fn lemma_count_mono(items: Seq<KnowledgeRecord>, k: (Seq<char>, Seq<char>), m: int, n: int)
    requires
        0 <= m <= n,
    ensures
        count_with_key(items, k, m) <= count_with_key(items, k, n),
    decreases n - m,
{
    if m < n {
        lemma_count_mono(items, k, m, n - 1);
    }
}

/// Two different active items with the same key make that key a
/// conflicting one: no conflict goes unreported.
pub proof fn lemma_conflicts_complete(items: Seq<KnowledgeRecord>, a: int, b: int)
    requires
        0 <= a < b < items.len(),
        is_active(items[a]),
        is_active(items[b]),
        conflict_key(items[a]) == conflict_key(items[b]),
    ensures
        conflicting_keys(items).contains(conflict_key(items[a])),
        ids_with_key(items, conflict_key(items[a])).contains(items[a].id@),
        ids_with_key(items, conflict_key(items[a])).contains(items[b].id@),
{
    let k = conflict_key(items[a]);
    lemma_count_mono(items, k, a, b);
    lemma_count_mono(items, k, b + 1, items.len() as int);
    assert(count_with_key(items, k, a + 1) == count_with_key(items, k, a) + 1);
    lemma_count_mono(items, k, a + 1, b);
    assert(count_with_key(items, k, b + 1) == count_with_key(items, k, b) + 1);
    lemma_count_with_key(items, k, items.len() as int);
    assert(items.take(items.len() as int) =~= items);
    assert(ids_with_key(items, k).len() > 1);
    lemma_keys_in_order(items, k);
    let ks = keys_in_order(items);
    let i = choose|i: int| 0 <= i < ks.len() && ks[i] == k;
    let pred = |k: (Seq<char>, Seq<char>)| ids_with_key(items, k).len() > 1;
    ks.lemma_filter_contains(pred, i);
    lemma_ids_with_key_complete(items, a);
    lemma_ids_with_key_complete(items, b);
}

/// Every conflicting key groups more than one active item, all with that
/// key.
pub proof fn lemma_conflicts_sound(items: Seq<KnowledgeRecord>, k: (Seq<char>, Seq<char>))
    requires
        conflicting_keys(items).contains(k),
    ensures
        ids_with_key(items, k).len() > 1,
        forall|i: int|
            0 <= i < ids_with_key(items, k).len() ==> is_active_id_with_key(
                items,
                k,
                #[trigger] ids_with_key(items, k)[i],
            ),
{
    let pred = |k: (Seq<char>, Seq<char>)| ids_with_key(items, k).len() > 1;
    let ks = keys_in_order(items);
    let i = choose|i: int| 0 <= i < ks.filter(pred).len() && ks.filter(pred)[i] == k;
    ks.lemma_filter_pred(pred, i);
    lemma_ids_with_key_members(items, k);
}

/// `x` is the id of an item of `items` whose status is `Active`, whose
/// scope is named `scope` and whose claim key is `key`.
pub open spec fn active_item_with(
    items: Seq<KnowledgeRecord>,
    x: Seq<char>,
    scope: Seq<char>,
    key: Seq<char>,
) -> bool {
    exists|j: int|
        0 <= j < items.len() && (#[trigger] items[j]).id@ == x && items[j].status == Status::Active
            && items[j].scope.name() == scope && items[j].claim_key_spec() == key
}

/// A conflict lists both ids.
pub open spec fn lists_both(c: Conflict, x: Seq<char>, y: Seq<char>) -> bool {
    strings_view(c.item_ids@).contains(x) && strings_view(c.item_ids@).contains(y)
}

/// Only active items make conflicts: every id a conflicting key groups is
/// the id of an item whose status is `Active`, with that scope and claim
/// key, and the group has at least two ids.
pub proof fn lemma_conflicts_list_active_items(
    items: Seq<KnowledgeRecord>,
    k: (Seq<char>, Seq<char>),
    x: Seq<char>,
)
    requires
        conflicting_keys(items).contains(k),
        ids_with_key(items, k).contains(x),
    ensures
        ids_with_key(items, k).len() >= 2,
        active_item_with(items, x, k.0, k.1),
{
    lemma_conflicts_sound(items, k);
    let ids = ids_with_key(items, k);
    let i = choose|i: int| 0 <= i < ids.len() && ids[i] == x;
    assert(is_active_id_with_key(items, k, ids[i]));
    let j = choose|j: int|
        0 <= j < items.len() && is_active(#[trigger] items[j]) && conflict_key(items[j]) == k
            && items[j].id@ == ids[i];
    assert(items[j].id@ == x);
}

/// Every two active items with the same scope and claim key are listed
/// together under a conflicting key.
pub proof fn lemma_active_pairs_conflict(items: Seq<KnowledgeRecord>, a: int, b: int)
    requires
        0 <= a < b < items.len(),
        items[a].status == Status::Active,
        items[b].status == Status::Active,
        items[a].scope == items[b].scope,
        items[a].claim_key_spec() == items[b].claim_key_spec(),
    ensures
        exists|i: int|
            0 <= i < conflicting_keys(items).len() && #[trigger] conflicting_keys(items)[i] == (
                items[a].scope.name(),
                items[a].claim_key_spec(),
            ),
        ids_with_key(items, (items[a].scope.name(), items[a].claim_key_spec())).contains(
            items[a].id@,
        ),
        ids_with_key(items, (items[a].scope.name(), items[a].claim_key_spec())).contains(
            items[b].id@,
        ),
{
    lemma_conflicts_complete(items, a, b);
    let ks = conflicting_keys(items);
    let i = choose|i: int| 0 <= i < ks.len() && ks[i] == conflict_key(items[a]);
    assert(ks[i] == (items[a].scope.name(), items[a].claim_key_spec()));
}

proof fn lemma_filter_keeps_distinct(
    s: Seq<(Seq<char>, Seq<char>)>,
    pred: spec_fn((Seq<char>, Seq<char>)) -> bool,
)
    requires
        s.no_duplicates(),
    ensures
        s.filter(pred).no_duplicates(),
    decreases s.len(),
{
    reveal_with_fuel(Seq::filter, 1);
    if s.len() > 0 {
        let t = s.drop_last();
        assert forall|i: int, j: int| 0 <= i < t.len() && 0 <= j < t.len() && i != j implies t[i]
            != t[j] by {
            assert(t[i] == s[i] && t[j] == s[j]);
        }
        lemma_filter_keeps_distinct(t, pred);
        let ft = t.filter(pred);
        if pred(s.last()) {
            if ft.contains(s.last()) {
                t.lemma_filter_contains_rev(pred, s.last());
                let i = choose|i: int| 0 <= i < t.len() && t[i] == s.last();
                assert(s[i] == s[s.len() - 1]);
            }
            let f = ft.push(s.last());
            assert forall|i: int, j: int| 0 <= i < f.len() && 0 <= j < f.len() && i != j implies f[i]
                != f[j] by {
                if i == f.len() - 1 {
                    assert(ft.contains(ft[j]));
                } else if j == f.len() - 1 {
                    assert(ft.contains(ft[i]));
                }
            }
        }
    }
}

/// The laws of `detect`, from what it computes.
proof fn lemma_detect_laws(items: Seq<KnowledgeRecord>, r: Seq<Conflict>)
    requires
        r.len() == conflicting_keys(items).len(),
        forall|i: int|
            0 <= i < r.len() ==> {
                &&& (#[trigger] r[i]).scope@ == conflicting_keys(items)[i].0
                &&& r[i].claim_key@ == conflicting_keys(items)[i].1
                &&& strings_view(r[i].item_ids@) == ids_with_key(items, conflicting_keys(items)[i])
            },
    ensures
        forall|i: int, m: int|
            0 <= i < r.len() && 0 <= m < r[i].item_ids.len() ==> active_item_with(
                items,
                (#[trigger] r[i].item_ids@[m])@,
                r[i].scope@,
                r[i].claim_key@,
            ),
        forall|i: int| 0 <= i < r.len() ==> (#[trigger] r[i]).item_ids.len() >= 2,
        forall|a: int, b: int|
            0 <= a < b < items.len() && (#[trigger] items[a]).status == Status::Active && (
            #[trigger] items[b]).status == Status::Active && items[a].scope == items[b].scope
                && items[a].claim_key_spec() == items[b].claim_key_spec() ==> exists|i: int|
                0 <= i < r.len() && #[trigger] lists_both(r[i], items[a].id@, items[b].id@),
        forall|i: int, j: int|
            0 <= i < j < r.len() ==> ((#[trigger] r[i]).scope@, r[i].claim_key@) != (
                (#[trigger] r[j]).scope@,
                r[j].claim_key@,
            ),
{
    let ks = conflicting_keys(items);
    lemma_keys_in_order(items, (Seq::empty(), Seq::empty()));
    lemma_filter_keeps_distinct(
        keys_in_order(items),
        |k: (Seq<char>, Seq<char>)| ids_with_key(items, k).len() > 1,
    );
    assert forall|i: int, j: int| 0 <= i < j < r.len() implies ((#[trigger] r[i]).scope@,
        r[i].claim_key@) != ((#[trigger] r[j]).scope@, r[j].claim_key@) by {
        assert(ks[i] != ks[j]);
    }
    assert forall|i: int, m: int| 0 <= i < r.len() && 0 <= m < r[i].item_ids.len() implies active_item_with(
        items,
        (#[trigger] r[i].item_ids@[m])@,
        r[i].scope@,
        r[i].claim_key@,
    ) by {
        let k = ks[i];
        assert(ks.contains(k));
        assert(strings_view(r[i].item_ids@)[m] == r[i].item_ids@[m]@);
        assert(ids_with_key(items, k).contains(r[i].item_ids@[m]@));
        lemma_conflicts_list_active_items(items, k, r[i].item_ids@[m]@);
    }
    assert forall|i: int| 0 <= i < r.len() implies (#[trigger] r[i]).item_ids.len() >= 2 by {
        let k = ks[i];
        assert(ks.contains(k));
        lemma_conflicts_sound(items, k);
        assert(strings_view(r[i].item_ids@).len() == r[i].item_ids.len());
    }
    assert forall|a: int, b: int|
        0 <= a < b < items.len() && (#[trigger] items[a]).status == Status::Active && (
        #[trigger] items[b]).status == Status::Active && items[a].scope == items[b].scope
            && items[a].claim_key_spec() == items[b].claim_key_spec() implies exists|i: int|
            0 <= i < r.len() && #[trigger] lists_both(r[i], items[a].id@, items[b].id@) by {
        lemma_active_pairs_conflict(items, a, b);
        let k = (items[a].scope.name(), items[a].claim_key_spec());
        let i = choose|i: int| 0 <= i < ks.len() && #[trigger] ks[i] == k;
        assert(strings_view(r[i].item_ids@) == ids_with_key(items, k));
        assert(lists_both(r[i], items[a].id@, items[b].id@));
    }
}

struct Bucket {
    scope: String,
    claim_key: String,
    ids: Vec<String>,
}

spec fn bucket_key(b: Bucket) -> (Seq<char>, Seq<char>) {
    (b.scope@, b.claim_key@)
}

spec fn bucket_keys(bs: Seq<Bucket>) -> Seq<(Seq<char>, Seq<char>)> {
    bs.map_values(|b: Bucket| bucket_key(b))
}

fn find_bucket(bs: &Vec<Bucket>, scope: &str, claim_key: &str) -> (r: Option<usize>)
    ensures
        match r {
            Some(j) => j < bs.len() && bucket_key(bs@[j as int]) == (scope@, claim_key@),
            None => !bucket_keys(bs@).contains((scope@, claim_key@)),
        },
{
    let mut j: usize = 0;
    while j < bs.len()
        invariant
            j <= bs.len(),
            forall|m: int| 0 <= m < j ==> bucket_key(#[trigger] bs@[m]) != (scope@, claim_key@),
        decreases bs.len() - j,
    {
        if str_eq(bs[j].scope.as_str(), scope) && str_eq(bs[j].claim_key.as_str(), claim_key) {
            return Some(j);
        }
        j += 1;
    }
    assert forall|m: int| 0 <= m < bs.len() implies bucket_keys(bs@)[m] != (scope@, claim_key@) by {
        assert(bucket_keys(bs@)[m] == bucket_key(bs@[m]));
    }
    None
}

/// The groups of active items sharing a scope and a claim key, for every
/// such group of more than one item, in order of each group's first item.
/// Each conflict gets a fresh id.
pub fn detect(items: &Vec<KnowledgeRecord>) -> (r: Vec<Conflict>)
    ensures
        r.len() == conflicting_keys(items@).len(),
        forall|i: int|
            0 <= i < r.len() ==> {
                &&& (#[trigger] r@[i]).scope@ == conflicting_keys(items@)[i].0
                &&& r@[i].claim_key@ == conflicting_keys(items@)[i].1
                &&& strings_view(r@[i].item_ids@) == ids_with_key(items@, conflicting_keys(items@)[i])
                &&& is_ulid_text(r@[i].id@)
            },
        forall|i: int, m: int|
            0 <= i < r.len() && 0 <= m < r@[i].item_ids.len() ==> active_item_with(
                items@,
                (#[trigger] r@[i].item_ids@[m])@,
                r@[i].scope@,
                r@[i].claim_key@,
            ),
        forall|i: int| 0 <= i < r.len() ==> (#[trigger] r@[i]).item_ids.len() >= 2,
        forall|a: int, b: int|
            0 <= a < b < items.len() && (#[trigger] items@[a]).status == Status::Active && (
            #[trigger] items@[b]).status == Status::Active && items@[a].scope == items@[b].scope
                && items@[a].claim_key_spec() == items@[b].claim_key_spec() ==> exists|i: int|
                0 <= i < r.len() && #[trigger] lists_both(r@[i], items@[a].id@, items@[b].id@),
        forall|i: int, j: int|
            0 <= i < j < r.len() ==> ((#[trigger] r@[i]).scope@, r@[i].claim_key@) != (
                (#[trigger] r@[j]).scope@,
                r@[j].claim_key@,
            ),
{
    let mut bs: Vec<Bucket> = Vec::new();
    let mut i: usize = 0;
    while i < items.len()
        invariant
            i <= items.len(),
            bucket_keys(bs@) == keys_in_order(items@.take(i as int)),
            forall|m: int|
                0 <= m < bs.len() ==> strings_view((#[trigger] bs@[m]).ids@) == ids_with_key(
                    items@.take(i as int),
                    bucket_key(bs@[m]),
                ),
        decreases items.len() - i,
    {
        let it = &items[i];
        let ghost pre = items@.take(i as int);
        let ghost post = items@.take(i + 1);
        assert(post.drop_last() =~= pre);
        assert(post.last() == *it);
        if it.status == Status::Active {
            let scope = it.scope.as_str();
            let key = it.derived_claim_key();
            match find_bucket(&bs, scope, key.as_str()) {
                Some(j) => {
                    let ghost old_bs = bs@;
                    let mut b = bs.remove(j);
                    b.ids.push(it.id.clone());
                    bs.insert(j, b);
                    proof {
                        lemma_keys_in_order(pre, conflict_key(*it));
                        assert(bucket_keys(old_bs).contains(conflict_key(*it))) by {
                            assert(bucket_keys(old_bs)[j as int] == conflict_key(*it));
                        }
                        assert(bucket_keys(bs@) =~= bucket_keys(old_bs));
                        assert forall|m: int| 0 <= m < bs.len() implies strings_view(
                            (#[trigger] bs@[m]).ids@,
                        ) == ids_with_key(post, bucket_key(bs@[m])) by {
                            if m != j {
                                assert(bs@[m] == old_bs[m]);
                                assert(bucket_key(old_bs[m]) != bucket_key(old_bs[j as int])) by {
                                    assert(bucket_keys(old_bs)[m] == bucket_key(old_bs[m]));
                                    assert(bucket_keys(old_bs)[j as int] == bucket_key(old_bs[j as int]));
                                }
                            } else {
                                assert(strings_view(bs@[m].ids@) =~= strings_view(old_bs[m].ids@).push(
                                    it.id@,
                                ));
                            }
                        }
                    }
                },
                None => {
                    let ghost old_bs = bs@;
                    let mut ids: Vec<String> = Vec::new();
                    ids.push(it.id.clone());
                    bs.push(Bucket { scope: to_owned_string(scope), claim_key: key, ids });
                    proof {
                        lemma_keys_in_order(pre, conflict_key(*it));
                        assert(bucket_keys(bs@) =~= bucket_keys(old_bs).push(conflict_key(*it)));
                        assert(ids_with_key(pre, conflict_key(*it)).len() == 0);
                        assert forall|m: int| 0 <= m < bs.len() implies strings_view(
                            (#[trigger] bs@[m]).ids@,
                        ) == ids_with_key(post, bucket_key(bs@[m])) by {
                            if m < old_bs.len() {
                                assert(bs@[m] == old_bs[m]);
                                assert(bucket_keys(old_bs)[m] == bucket_key(old_bs[m]));
                                assert(bucket_key(old_bs[m]) != conflict_key(*it));
                            } else {
                                assert(strings_view(bs@[m].ids@) =~= seq![it.id@]);
                                assert(ids_with_key(pre, conflict_key(*it)) =~= Seq::<Seq<char>>::empty());
                            }
                        }
                    }
                },
            }
        } else {
            proof {
                assert forall|m: int| 0 <= m < bs.len() implies strings_view(
                    (#[trigger] bs@[m]).ids@,
                ) == ids_with_key(post, bucket_key(bs@[m])) by {}
            }
        }
        i += 1;
    }
    assert(items@.take(items.len() as int) =~= items@);
    let mut out: Vec<Conflict> = Vec::new();
    let mut m: usize = 0;
    let ghost pred = |k: (Seq<char>, Seq<char>)| ids_with_key(items@, k).len() > 1;
    while m < bs.len()
        invariant
            m <= bs.len(),
            bucket_keys(bs@) == keys_in_order(items@),
            forall|x: int|
                0 <= x < bs.len() ==> strings_view((#[trigger] bs@[x]).ids@) == ids_with_key(
                    items@,
                    bucket_key(bs@[x]),
                ),
            pred == (|k: (Seq<char>, Seq<char>)| ids_with_key(items@, k).len() > 1),
            out.len() == bucket_keys(bs@).take(m as int).filter(pred).len(),
            forall|x: int|
                0 <= x < out.len() ==> {
                    &&& (#[trigger] out@[x]).scope@ == bucket_keys(bs@).take(m as int).filter(pred)[x].0
                    &&& out@[x].claim_key@ == bucket_keys(bs@).take(m as int).filter(pred)[x].1
                    &&& strings_view(out@[x].item_ids@) == ids_with_key(
                        items@,
                        bucket_keys(bs@).take(m as int).filter(pred)[x],
                    )
                    &&& is_ulid_text(out@[x].id@)
                },
        decreases bs.len() - m,
    {
        let ghost ks = bucket_keys(bs@);
        assert(ks.take(m + 1).drop_last() =~= ks.take(m as int));
        assert(ks.take(m + 1).last() == bucket_key(bs@[m as int]));
        reveal_with_fuel(Seq::filter, 1);
        if bs[m].ids.len() > 1 {
            let b = &bs[m];
            let mut ids: Vec<String> = Vec::new();
            let mut n: usize = 0;
            while n < b.ids.len()
                invariant
                    n <= b.ids.len(),
                    strings_view(ids@) == strings_view(b.ids@).take(n as int),
                decreases b.ids.len() - n,
            {
                let ghost before = ids@;
                let x = b.ids[n].clone();
                ids.push(x);
                assert(strings_view(ids@) =~= strings_view(before).push(x@));
                assert(strings_view(b.ids@).take(n + 1) =~= strings_view(b.ids@).take(n as int).push(
                    b.ids@[n as int]@,
                ));
                n += 1;
            }
            assert(strings_view(b.ids@).take(b.ids.len() as int) =~= strings_view(b.ids@));
            let c = Conflict {
                id: new_id(),
                claim_key: b.claim_key.clone(),
                scope: b.scope.clone(),
                item_ids: ids,
            };
            out.push(c);
            assert(ks.take(m + 1).filter(pred) =~= ks.take(m as int).filter(pred).push(bucket_key(bs@[m as int])));
        } else {
            assert(ks.take(m + 1).filter(pred) =~= ks.take(m as int).filter(pred));
        }
        m += 1;
    }
    assert(bucket_keys(bs@).take(bs.len() as int) =~= bucket_keys(bs@));
    proof {
        lemma_detect_laws(items@, out@);
    }
    out
}

} // verus!
