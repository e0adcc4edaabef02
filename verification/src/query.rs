//! The context query: what an agent asks for, and the rules that narrow the
//! candidate pool down before scoring: the scope chain, the full-text
//! query, the status set and the type / domain / tag filters.
use vstd::prelude::*;
use crate::schema::{opt_view, KnowledgeRecord, KnowledgeType, Scope};
use crate::text::{
    char_vec, is_alphanumeric, is_space, join, join_strings, normalized, str_eq, strings_view,
    to_owned_string, trim, alphanumeric, words, split_whitespace, normalize,
};

verus! {

/// A request for context.
#[derive(Debug)]
pub struct Query {
    pub task: String,
    pub scope: Option<String>,
    pub scope_path: Option<String>,
    pub knowledge_types: Option<Vec<String>>,
    pub domains: Option<Vec<String>>,
    pub tags_any: Option<Vec<String>>,
    pub include_stale: bool,
    pub max_items: usize,
    pub include_conflicts: bool,
}

impl Default for Query {
    /// An empty task over every scope: active items only, at most 12 of
    /// them, with conflicts reported.
    fn default() -> (q: Self)
        ensures
            q.task@ == Seq::<char>::empty(),
            q.scope is None,
            q.scope_path is None,
            q.knowledge_types is None,
            q.domains is None,
            q.tags_any is None,
            !q.include_stale,
            q.max_items == 12,
            q.include_conflicts,
    {
        Query {
            task: String::new(),
            scope: None,
            scope_path: None,
            knowledge_types: None,
            domains: None,
            tags_any: None,
            include_stale: false,
            max_items: 12,
            include_conflicts: true,
        }
    }
}

// ---------------------------------------------------------------------------
// Scope chain
// ---------------------------------------------------------------------------
/// Scopes from the most local outward.
pub open spec fn outward() -> Seq<Scope> {
    seq![Scope::Session, Scope::Project, Scope::User, Scope::Workspace, Scope::Organization, Scope::Global]
}

/// Position of a scope in the outward order.
pub open spec fn scope_rank(s: Scope) -> int {
    match s {
        Scope::Session => 0,
        Scope::Project => 1,
        Scope::User => 2,
        Scope::Workspace => 3,
        Scope::Organization => 4,
        Scope::Global => 5,
    }
}

/// A scope and every scope outward of it.
pub open spec fn scope_chain_spec(s: Scope) -> Seq<Scope> {
    outward().skip(scope_rank(s))
}

pub fn scope_chain(s: Scope) -> (r: Vec<Scope>)
    ensures
        r@ == scope_chain_spec(s),
{
    let r = match s {
        Scope::Session => vec![
            Scope::Session,
            Scope::Project,
            Scope::User,
            Scope::Workspace,
            Scope::Organization,
            Scope::Global,
        ],
        Scope::Project => vec![
            Scope::Project,
            Scope::User,
            Scope::Workspace,
            Scope::Organization,
            Scope::Global,
        ],
        Scope::User => vec![Scope::User, Scope::Workspace, Scope::Organization, Scope::Global],
        Scope::Workspace => vec![Scope::Workspace, Scope::Organization, Scope::Global],
        Scope::Organization => vec![Scope::Organization, Scope::Global],
        Scope::Global => vec![Scope::Global],
    };
    assert(r@ =~= scope_chain_spec(s));
    r
}

/// A scope's chain starts at the scope, ends at `Global`, and holds exactly
/// the scopes at or outward of it.
pub proof fn lemma_scope_chain(s: Scope, t: Scope)
    ensures
        scope_chain_spec(s).len() > 0,
        scope_chain_spec(s)[0] == s,
        scope_chain_spec(s).last() == Scope::Global,
        scope_chain_spec(s).contains(t) <==> scope_rank(s) <= scope_rank(t),
{
    let c = scope_chain_spec(s);
    if scope_rank(s) <= scope_rank(t) {
        assert(c[scope_rank(t) - scope_rank(s)] == t);
    }
    if c.contains(t) {
        let k = choose|k: int| 0 <= k < c.len() && c[k] == t;
        assert(outward()[k + scope_rank(s)] == t);
    }
}

/// Chains are nested: a more local request sees everything a more
/// outward one sees.
pub proof fn lemma_scope_chain_nested(a: Scope, b: Scope, t: Scope)
    requires
        scope_rank(a) <= scope_rank(b),
        scope_chain_spec(b).contains(t),
    ensures
        scope_chain_spec(a).contains(t),
{
    lemma_scope_chain(a, t);
    lemma_scope_chain(b, t);
}

/// Whether an item of scope `item_scope` is visible to a request: always
/// when no scope is requested, else when it lies in the chain of the
/// requested scope.
pub open spec fn in_scope_chain_spec(item_scope: Scope, requested: Option<Seq<char>>) -> bool {
    match requested {
        None => true,
        Some(req) => scope_chain_spec(Scope::from_name(normalized(req))).contains(item_scope),
    }
}

pub fn in_scope_chain(item_scope: Scope, requested: &Option<String>) -> (r: bool)
    ensures
        r == in_scope_chain_spec(item_scope, opt_view(*requested)),
{
    let req = match requested {
        Some(req) => req,
        None => return true,
    };
    let req_scope = Scope::parse(req.as_str());
    assert(opt_view(*requested) == Some(req@));
    assert(req_scope == Scope::from_name(normalized(req@)));
    let chain = scope_chain(req_scope);
    let mut i: usize = 0;
    while i < chain.len()
        invariant
            i <= chain.len(),
            chain@ == scope_chain_spec(req_scope),
            req_scope == Scope::from_name(normalized(req@)),
            opt_view(*requested) == Some(req@),
            forall|j: int| 0 <= j < i ==> chain@[j] != item_scope,
        decreases chain.len() - i,
    {
        if chain[i] == item_scope {
            assert(chain@[i as int] == item_scope);
            assert(scope_chain_spec(req_scope).contains(item_scope));
            return true;
        }
        i += 1;
    }
    false
}

// ---------------------------------------------------------------------------
// Full-text query
// ---------------------------------------------------------------------------
pub open spec fn fts_char(c: char) -> bool {
    alphanumeric(c) || c == '-'
}

/// A word with everything but alphanumerics and `-` removed.
pub open spec fn fts_clean(w: Seq<char>) -> Seq<char> {
    w.filter(|c: char| fts_char(c))
}

/// The non-empty cleaned words of a text.
pub open spec fn fts_terms(ws: Seq<Seq<char>>) -> Seq<Seq<char>>
    decreases ws.len(),
{
    if ws.len() == 0 {
        Seq::empty()
    } else {
        let t = fts_clean(ws.last());
        if t.len() > 0 {
            fts_terms(ws.drop_last()).push(t)
        } else {
            fts_terms(ws.drop_last())
        }
    }
}

/// Every term of the full-text query is a non-empty run of alphanumerics
/// and `-`: nothing of the task reaches FTS5 as query syntax.
pub proof fn lemma_fts_terms_safe(ws: Seq<Seq<char>>)
    ensures
        forall|k: int|
            0 <= k < fts_terms(ws).len() ==> (#[trigger] fts_terms(ws)[k]).len() > 0 && forall|j: int|
                0 <= j < fts_terms(ws)[k].len() ==> fts_char(#[trigger] fts_terms(ws)[k][j]),
    decreases ws.len(),
{
    if ws.len() > 0 {
        lemma_fts_terms_safe(ws.drop_last());
        let w = ws.last();
        let t = fts_clean(w);
        assert forall|j: int| 0 <= j < t.len() implies fts_char(#[trigger] t[j]) by {
            w.lemma_filter_pred(|c: char| fts_char(c), j);
        }
        let prev = fts_terms(ws.drop_last());
        if t.len() > 0 {
            assert(fts_terms(ws) == prev.push(t));
            assert forall|k: int| 0 <= k < fts_terms(ws).len() implies (#[trigger] fts_terms(ws)[k]).len()
                > 0 && forall|j: int|
                0 <= j < fts_terms(ws)[k].len() ==> fts_char(#[trigger] fts_terms(ws)[k][j]) by {
                if k < prev.len() {
                    assert(fts_terms(ws)[k] == prev[k]);
                }
            }
        }
    }
}

pub open spec fn quoted(t: Seq<char>) -> Seq<char> {
    seq!['"'] + t + seq!['"']
}

pub open spec fn quote_all(ts: Seq<Seq<char>>) -> Seq<Seq<char>> {
    ts.map_values(|t: Seq<char>| quoted(t))
}

/// An FTS5 `MATCH` expression: each cleaned word quoted, joined by `OR`.
pub open spec fn sanitise_fts_spec(s: Seq<char>) -> Seq<char> {
    join(quote_all(fts_terms(words(s))), " OR "@)
}

fn clean_word(w: &str) -> (r: String)
    ensures
        r@ == fts_clean(w@),
{
    let cs = char_vec(w);
    let mut r = String::new();
    let mut i: usize = 0;
    while i < cs.len()
        invariant
            i <= cs.len(),
            r@ == fts_clean(cs@.take(i as int)),
        decreases cs.len() - i,
    {
        let c = cs[i];
        assert(cs@.take(i + 1).drop_last() =~= cs@.take(i as int));
        reveal_with_fuel(Seq::filter, 1);
        if is_alphanumeric(c) || c == '-' {
            r.push(c);
        }
        i += 1;
    }
    assert(cs@.take(cs.len() as int) =~= w@);
    r
}

/// The words of the task made safe for FTS5: punctuation dropped, each
/// word quoted, alternatives joined by `OR`.
pub fn sanitise_fts(s: &str) -> (r: String)
    ensures
        r@ == sanitise_fts_spec(s@),
{
    let cs = char_vec(s);
    let ws = split_whitespace(&cs);
    let mut quoted_terms: Vec<String> = Vec::new();
    let mut i: usize = 0;
    while i < ws.len()
        invariant
            i <= ws.len(),
            strings_view(quoted_terms@) == quote_all(fts_terms(strings_view(ws@.take(i as int)))),
        decreases ws.len() - i,
    {
        assert(strings_view(ws@.take(i + 1)).drop_last() =~= strings_view(ws@.take(i as int)));
        assert(strings_view(ws@.take(i + 1)).last() == ws@[i as int]@);
        let ghost prev = fts_terms(strings_view(ws@.take(i as int)));
        let t = clean_word(ws[i].as_str());
        assert(fts_terms(strings_view(ws@.take(i + 1))) == (if t@.len() > 0 {
            prev.push(t@)
        } else {
            prev
        }));
        if !t.as_str().is_empty() {
            let mut q = String::new();
            q.push('"');
            q.append(t.as_str());
            q.push('"');
            assert(q@ =~= quoted(t@));
            let ghost before = quoted_terms@;
            quoted_terms.push(q);
            assert(strings_view(quoted_terms@) =~= strings_view(before).push(q@));
            assert(quote_all(prev.push(t@)) =~= quote_all(prev).push(quoted(t@)));
        }
        i += 1;
    }
    assert(ws@.take(ws.len() as int) =~= ws@);
    join_strings(&quoted_terms, " OR ")
}

/// The full-text part of a query: none for a blank task.
pub open spec fn fts_query_spec(task: Seq<char>) -> Option<Seq<char>> {
    if trim(task).len() == 0 {
        None
    } else {
        Some(sanitise_fts_spec(task))
    }
}

pub fn fts_query(task: &str) -> (r: Option<String>)
    ensures
        opt_view(r) == fts_query_spec(task@),
{
    let cs = char_vec(task);
    let t = crate::text::trim_chars(&cs);
    if t.len() == 0 {
        None
    } else {
        Some(sanitise_fts(task))
    }
}

// ---------------------------------------------------------------------------
// Statuses, pool size, filters
// ---------------------------------------------------------------------------
/// The statuses a query sees: active ones, and stale and superseded ones
/// too when it asks for stale items.
pub open spec fn included_statuses_spec(include_stale: bool) -> Seq<Seq<char>> {
    if include_stale {
        seq!["active"@, "stale"@, "superseded"@]
    } else {
        seq!["active"@]
    }
}

pub fn included_statuses(include_stale: bool) -> (r: Vec<String>)
    ensures
        strings_view(r@) == included_statuses_spec(include_stale),
{
    let mut r: Vec<String> = Vec::new();
    r.push(to_owned_string("active"));
    if include_stale {
        r.push(to_owned_string("stale"));
        r.push(to_owned_string("superseded"));
    }
    assert(strings_view(r@) =~= included_statuses_spec(include_stale));
    r
}

/// Five candidates per item asked for (at least one item), at most 200.
pub open spec fn pool_size_spec(max_items: nat) -> nat {
    let n = if max_items < 1 {
        1
    } else {
        max_items
    };
    if n * 5 < 200 {
        n * 5
    } else {
        200
    }
}

pub fn pool_size(max_items: usize) -> (r: usize)
    requires
        max_items <= usize::MAX / 5,
    ensures
        r == pool_size_spec(max_items as nat),
{
    let n = if max_items < 1 {
        1
    } else {
        max_items
    };
    if n * 5 < 200 {
        n * 5
    } else {
        200
    }
}

/// How many scored items a query returns at most: `max_items`, but at
/// least one.
pub fn result_limit(max_items: usize) -> (r: usize)
    ensures
        r == (if max_items < 1 {
            1
        } else {
            max_items
        }),
{
    if max_items < 1 {
        1
    } else {
        max_items
    }
}

pub open spec fn seq_has(v: Seq<Seq<char>>, x: Seq<char>) -> bool {
    exists|i: int| 0 <= i < v.len() && v[i] == x
}

/// Whether a candidate passes a query's filters: its scope lies in the
/// requested scope chain, and when types, domains or tags are listed (and
/// the list is not empty) its type is listed, its domain is listed, and one
/// of its tags is listed.
pub open spec fn passes_filters_spec(
    q: Query,
    scope: Scope,
    knowledge_type: KnowledgeType,
    domain: Option<Seq<char>>,
    tags: Seq<Seq<char>>,
) -> bool {
    &&& in_scope_chain_spec(scope, opt_view(q.scope))
    &&& (q.knowledge_types matches Some(ts) && ts.len() > 0) ==> seq_has(
        strings_view(q.knowledge_types.unwrap()@),
        knowledge_type.name(),
    )
    &&& (q.domains matches Some(ds) && ds.len() > 0) ==> (domain matches Some(d) && seq_has(
        strings_view(q.domains.unwrap()@),
        d,
    ))
    &&& (q.tags_any matches Some(ts) && ts.len() > 0) ==> exists|t: Seq<char>|
        seq_has(strings_view(q.tags_any.unwrap()@), t) && seq_has(tags, t)
}

fn list_has(v: &Vec<String>, x: &str) -> (r: bool)
    ensures
        r == seq_has(strings_view(v@), x@),
{
    let mut i: usize = 0;
    while i < v.len()
        invariant
            i <= v.len(),
            forall|j: int| 0 <= j < i ==> strings_view(v@)[j] != x@,
        decreases v.len() - i,
    {
        if str_eq(v[i].as_str(), x) {
            assert(strings_view(v@)[i as int] == x@);
            return true;
        }
        i += 1;
    }
    false
}

fn lists_meet(a: &Vec<String>, b: &Vec<String>) -> (r: bool)
    ensures
        r == exists|t: Seq<char>| seq_has(strings_view(a@), t) && seq_has(strings_view(b@), t),
{
    let mut i: usize = 0;
    while i < a.len()
        invariant
            i <= a.len(),
            forall|j: int| 0 <= j < i ==> !seq_has(strings_view(b@), #[trigger] strings_view(a@)[j]),
        decreases a.len() - i,
    {
        if list_has(b, a[i].as_str()) {
            assert(strings_view(a@)[i as int] == a@[i as int]@);
            assert(seq_has(strings_view(a@), a@[i as int]@));
            return true;
        }
        i += 1;
    }
    assert forall|t: Seq<char>| seq_has(strings_view(a@), t) implies !seq_has(
        strings_view(b@),
        t,
    ) by {
        let j = choose|j: int| 0 <= j < a.len() && strings_view(a@)[j] == t;
        assert(!seq_has(strings_view(b@), strings_view(a@)[j]));
    }
    false
}

/// Whether a candidate passes the query's filters.
pub fn passes_filters(
    q: &Query,
    scope: Scope,
    knowledge_type: KnowledgeType,
    domain: &Option<String>,
    tags: &Vec<String>,
) -> (r: bool)
    ensures
        r == passes_filters_spec(*q, scope, knowledge_type, opt_view(*domain), strings_view(tags@)),
{
    if !in_scope_chain(scope, &q.scope) {
        return false;
    }
    if let Some(types) = &q.knowledge_types {
        if types.len() > 0 && !list_has(types, knowledge_type.as_str()) {
            return false;
        }
    }
    if let Some(domains) = &q.domains {
        if domains.len() > 0 {
            match domain {
                Some(d) => {
                    if !list_has(domains, d.as_str()) {
                        return false;
                    }
                },
                None => return false,
            }
        }
    }
    if let Some(wanted) = &q.tags_any {
        if wanted.len() > 0 && !lists_meet(wanted, tags) {
            return false;
        }
    }
    true
}

/// Whether an item passes the query's filters.
pub open spec fn item_passes(q: Query, it: KnowledgeRecord) -> bool {
    passes_filters_spec(q, it.scope, it.knowledge_type, opt_view(it.domain), strings_view(it.tags@))
}

/// The items that pass the query's filters, in their order.
pub open spec fn kept(q: Query, items: Seq<KnowledgeRecord>) -> Seq<KnowledgeRecord>
    decreases items.len(),
{
    if items.len() == 0 {
        items
    } else {
        let r = kept(q, items.drop_last());
        if item_passes(q, items.last()) {
            r.push(items.last())
        } else {
            r
        }
    }
}

/// `it` meets the query: its scope lies in the chain of the requested
/// scope, if any; where types are listed its type is among them; where
/// domains are listed it has one of them; where tags are listed it has one
/// of them.
pub open spec fn meets(q: Query, it: KnowledgeRecord) -> bool {
    &&& match q.scope {
        Some(s) => scope_chain_spec(Scope::from_name(normalized(s@))).contains(it.scope),
        None => true,
    }
    &&& match q.knowledge_types {
        Some(ts) => ts.len() > 0 ==> exists|k: int|
            0 <= k < ts.len() && (#[trigger] ts@[k])@ == it.knowledge_type.name(),
        None => true,
    }
    &&& match q.domains {
        Some(ds) => ds.len() > 0 ==> match it.domain {
            Some(d) => exists|k: int| 0 <= k < ds.len() && (#[trigger] ds@[k])@ == d@,
            None => false,
        },
        None => true,
    }
    &&& match q.tags_any {
        Some(ts) => ts.len() > 0 ==> exists|k: int, m: int|
            0 <= k < ts.len() && 0 <= m < it.tags.len() && (#[trigger] ts@[k])@ == (
            #[trigger] it.tags@[m])@,
        None => true,
    }
}

proof fn lemma_meets(q: Query, it: KnowledgeRecord)
    ensures
        item_passes(q, it) <==> meets(q, it),
{
    if let Some(ts) = q.knowledge_types {
        if ts.len() > 0 {
            if seq_has(strings_view(ts@), it.knowledge_type.name()) {
                let i = choose|i: int|
                    0 <= i < strings_view(ts@).len() && strings_view(ts@)[i] == it.knowledge_type.name();
                assert(ts@[i]@ == it.knowledge_type.name());
            }
            if exists|k: int| 0 <= k < ts.len() && (#[trigger] ts@[k])@ == it.knowledge_type.name() {
                let k = choose|k: int| 0 <= k < ts.len() && (#[trigger] ts@[k])@ == it.knowledge_type.name();
                assert(strings_view(ts@)[k] == it.knowledge_type.name());
            }
        }
    }
    if let Some(ds) = q.domains {
        if ds.len() > 0 {
            if let Some(d) = it.domain {
                if seq_has(strings_view(ds@), d@) {
                    let i = choose|i: int| 0 <= i < strings_view(ds@).len() && strings_view(ds@)[i] == d@;
                    assert(ds@[i]@ == d@);
                }
                if exists|k: int| 0 <= k < ds.len() && (#[trigger] ds@[k])@ == d@ {
                    let k = choose|k: int| 0 <= k < ds.len() && (#[trigger] ds@[k])@ == d@;
                    assert(strings_view(ds@)[k] == d@);
                }
            }
        }
    }
    if let Some(ts) = q.tags_any {
        if ts.len() > 0 {
            let tv = strings_view(ts@);
            let gv = strings_view(it.tags@);
            if exists|t: Seq<char>| seq_has(tv, t) && seq_has(gv, t) {
                let t = choose|t: Seq<char>| seq_has(tv, t) && seq_has(gv, t);
                let k = choose|k: int| 0 <= k < tv.len() && tv[k] == t;
                let m = choose|m: int| 0 <= m < gv.len() && gv[m] == t;
                assert(ts@[k]@ == it.tags@[m]@);
            }
            if exists|k: int, m: int|
                0 <= k < ts.len() && 0 <= m < it.tags.len() && (#[trigger] ts@[k])@ == (
                #[trigger] it.tags@[m])@ {
                let (k, m) = choose|k: int, m: int|
                    0 <= k < ts.len() && 0 <= m < it.tags.len() && (#[trigger] ts@[k])@ == (
                    #[trigger] it.tags@[m])@;
                let t = ts@[k]@;
                assert(tv[k] == t);
                assert(gv[m] == t);
                assert(seq_has(tv, t) && seq_has(gv, t));
            }
        }
    }
}

/// The candidates kept are the input's that meet the query: every kept
/// item is an input item that meets it, and every input item that meets it
/// is kept.
pub proof fn lemma_kept_meets(q: Query, items: Seq<KnowledgeRecord>)
    ensures
        forall|i: int|
            0 <= i < kept(q, items).len() ==> items.contains(#[trigger] kept(q, items)[i]) && meets(
                q,
                kept(q, items)[i],
            ),
        forall|j: int| 0 <= j < items.len() && meets(q, #[trigger] items[j]) ==> kept(q, items).contains(
            items[j],
        ),
    decreases items.len(),
{
    if items.len() > 0 {
        let t = items.drop_last();
        lemma_kept_meets(q, t);
        lemma_meets(q, items.last());
        let kt = kept(q, t);
        let k = kept(q, items);
        assert forall|i: int| 0 <= i < k.len() implies items.contains(#[trigger] k[i]) && meets(q, k[i]) by {
            if i < kt.len() {
                assert(k[i] == kt[i]);
                assert(t.contains(kt[i]));
                let j = choose|j: int| 0 <= j < t.len() && t[j] == kt[i];
                assert(items[j] == t[j]);
            } else {
                assert(k[i] == items.last());
                assert(items[items.len() - 1] == items.last());
            }
        }
        assert forall|j: int| 0 <= j < items.len() && meets(q, #[trigger] items[j]) implies k.contains(
            items[j],
        ) by {
            if j < t.len() {
                assert(t[j] == items[j]);
                assert(kt.contains(t[j]));
                let i = choose|i: int| 0 <= i < kt.len() && kt[i] == t[j];
                assert(k[i] == kt[i]);
            } else {
                assert(items[j] == items.last());
                assert(k[k.len() - 1] == items.last());
            }
        }
    }
}

/// Keeps the candidates that pass the query's filters (scope chain, types,
/// domains, tags), in their order.
pub fn filter_candidates(items: Vec<KnowledgeRecord>, q: &Query) -> (r: Vec<KnowledgeRecord>)
    ensures
        r@ == kept(*q, items@),
        forall|i: int| 0 <= i < r@.len() ==> items@.contains(#[trigger] r@[i]) && meets(*q, r@[i]),
        forall|j: int| 0 <= j < items@.len() && meets(*q, #[trigger] items@[j]) ==> r@.contains(
            items@[j],
        ),
{
    proof {
        lemma_kept_meets(*q, items@);
    }
    let ghost all = items@;
    let mut items = items;
    let mut rev: Vec<KnowledgeRecord> = Vec::new();
    while items.len() > 0
        invariant
            items@ + rev@.reverse() == all,
        decreases items.len(),
    {
        let it = items.pop().unwrap();
        let ghost before = rev@;
        rev.push(it);
        assert(rev@.reverse() =~= seq![it] + before.reverse());
    }
    let mut r: Vec<KnowledgeRecord> = Vec::new();
    assert(rev@.reverse() =~= all);
    let ghost mut done: Seq<KnowledgeRecord> = Seq::empty();
    assert(all.take(0) =~= Seq::<KnowledgeRecord>::empty());
    while rev.len() > 0
        invariant
            rev@.reverse() == all.skip(all.len() - rev.len()),
            rev.len() <= all.len(),
            r@ == kept(*q, all.take(all.len() - rev.len())),
        decreases rev.len(),
    {
        let ghost k = all.len() - rev.len();
        let it = rev.pop().unwrap();
        assert(it == all[k]) by {
            assert(all.skip(k)[0] == all[k]);
            assert(rev@.push(it).reverse()[0] == it);
        }
        assert(all.take(k + 1).drop_last() =~= all.take(k));
        assert(all.take(k + 1).last() == it);
        if passes_filters(q, it.scope, it.knowledge_type, &it.domain, &it.tags) {
            r.push(it);
        }
        assert(rev@.reverse() =~= all.skip(all.len() - rev.len())) by {
            assert(all.skip(k).drop_first() =~= all.skip(k + 1));
            assert(rev@.push(it).reverse() =~= seq![it] + rev@.reverse());
        }
    }
    assert(all.take(all.len() as int) =~= all);
    r
}

/// Whether some item has the id.
pub open spec fn has_id(items: Seq<KnowledgeRecord>, id: Seq<char>) -> bool {
    exists|j: int| 0 <= j < items.len() && items[j].id@ == id
}

/// The ids, in their order, that no item has.
pub open spec fn ids_missing(ids: Seq<Seq<char>>, items: Seq<KnowledgeRecord>) -> Seq<Seq<char>>
    decreases ids.len(),
{
    if ids.len() == 0 {
        ids
    } else {
        let r = ids_missing(ids.drop_last(), items);
        if has_id(items, ids.last()) {
            r
        } else {
            r.push(ids.last())
        }
    }
}

/// The ids fetched on their own are exactly the semantic neighbours that no
/// pooled item has: each is one of the neighbours and matches no pooled
/// item's id, and every neighbour that matches none is among them.
pub proof fn lemma_ids_missing(ids: Seq<Seq<char>>, items: Seq<KnowledgeRecord>)
    ensures
        forall|i: int|
            0 <= i < ids_missing(ids, items).len() ==> ids.contains(
                #[trigger] ids_missing(ids, items)[i],
            ) && forall|j: int| 0 <= j < items.len() ==> items[j].id@ != ids_missing(ids, items)[i],
        forall|k: int|
            0 <= k < ids.len() && (forall|j: int| 0 <= j < items.len() ==> items[j].id@ != ids[k])
                ==> ids_missing(ids, items).contains(#[trigger] ids[k]),
    decreases ids.len(),
{
    if ids.len() > 0 {
        let t = ids.drop_last();
        lemma_ids_missing(t, items);
        let rt = ids_missing(t, items);
        let r = ids_missing(ids, items);
        assert forall|i: int| 0 <= i < r.len() implies ids.contains(#[trigger] r[i]) && forall|j: int|
            0 <= j < items.len() ==> items[j].id@ != r[i] by {
            if i < rt.len() {
                assert(r[i] == rt[i]);
                let m = choose|m: int| 0 <= m < t.len() && t[m] == rt[i];
                assert(ids[m] == t[m]);
            } else {
                assert(r[i] == ids.last());
                assert(ids[ids.len() - 1] == ids.last());
                assert(!has_id(items, ids.last()));
            }
        }
        assert forall|k: int|
            0 <= k < ids.len() && (forall|j: int| 0 <= j < items.len() ==> items[j].id@ != ids[k])
                implies r.contains(#[trigger] ids[k]) by {
            if k < t.len() {
                assert(t[k] == ids[k]);
                assert(rt.contains(t[k]));
                let i = choose|i: int| 0 <= i < rt.len() && rt[i] == t[k];
                assert(r[i] == rt[i]);
            } else {
                assert(ids[k] == ids.last());
                assert(!has_id(items, ids.last()));
                assert(r[r.len() - 1] == ids.last());
            }
        }
    }
}

fn items_have_id(items: &Vec<KnowledgeRecord>, id: &str) -> (r: bool)
    ensures
        r == has_id(items@, id@),
{
    let mut j: usize = 0;
    while j < items.len()
        invariant
            j <= items.len(),
            forall|k: int| 0 <= k < j ==> items@[k].id@ != id@,
        decreases items.len() - j,
    {
        if str_eq(items[j].id.as_str(), id) {
            return true;
        }
        j += 1;
    }
    false
}

/// The semantic neighbours that the full-text pool does not hold already:
/// they are fetched on their own.
pub fn extra_ids(semantic: &Vec<String>, pool: &Vec<KnowledgeRecord>) -> (r: Vec<String>)
    ensures
        strings_view(r@) == ids_missing(strings_view(semantic@), pool@),
{
    let mut r: Vec<String> = Vec::new();
    let mut i: usize = 0;
    while i < semantic.len()
        invariant
            i <= semantic.len(),
            strings_view(r@) == ids_missing(strings_view(semantic@.take(i as int)), pool@),
        decreases semantic.len() - i,
    {
        assert(strings_view(semantic@.take(i + 1)).drop_last() =~= strings_view(
            semantic@.take(i as int),
        ));
        if !items_have_id(pool, semantic[i].as_str()) {
            r.push(to_owned_string(semantic[i].as_str()));
            assert(strings_view(r@) =~= strings_view(r@.drop_last()).push(semantic@[i as int]@));
        }
        i += 1;
    }
    assert(semantic@.take(semantic.len() as int) =~= semantic@);
    r
}

} // verus!
