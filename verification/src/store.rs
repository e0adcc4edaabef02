//! The SQLite index as far as it is logic: the listing query built from
//! filters, the content hash that lets a reindex skip unchanged items, and
//! the flattening of tags into one column. Running the statements is left
//! to the caller.
use vstd::prelude::*;
use sha2::{Digest, Sha256};
use crate::decimal::{i64_to_string, int_decimal};
use crate::clock::{
    format_rfc3339, instant_round_trips, parse_rfc3339, rfc3339_format, rfc3339_or_empty,
    rfc3339_parse, rfc3339_text, Timestamp,
};
use crate::schema::{
    opt_view, KnowledgeRecord, KnowledgeType, Relation, Scope, SourceType, Stability, Status,
};
use crate::query::{fts_query, fts_query_spec, included_statuses, included_statuses_spec, pool_size, pool_size_spec, Query};
use crate::text::{char_vec, is_space, str_eq, join, join_strings, lemma_words_join, normalized, split_whitespace, strings_view, to_owned_string, words};

verus! {

/// Filters of a listing. `q` is an FTS5 `MATCH` expression; the other
/// fields are equality filters. An empty status list excludes deleted
/// items only.
#[derive(Debug)]
pub struct ListFilters {
    pub scope: Option<String>,
    pub knowledge_type: Option<String>,
    pub domain: Option<String>,
    pub tag: Option<String>,
    pub q: Option<String>,
    pub include_status: Vec<String>,
    pub limit: Option<i64>,
    pub offset: Option<i64>,
}

/// The listing parameters of `GET /knowledge`.
#[derive(Debug)]
pub struct ListParams {
    pub scope: Option<String>,
    pub knowledge_type: Option<String>,
    pub domain: Option<String>,
    pub tag: Option<String>,
    pub q: Option<String>,
    pub include_stale: bool,
    pub limit: Option<i64>,
    pub offset: Option<i64>,
}

/// The filters of a listing request: its fields as given, the statuses of
/// `include_stale`, and a limit of 100 unless one is given.
pub fn list_filters(p: ListParams) -> (f: ListFilters)
    ensures
        opt_view(f.scope) == opt_view(p.scope),
        opt_view(f.knowledge_type) == opt_view(p.knowledge_type),
        opt_view(f.domain) == opt_view(p.domain),
        opt_view(f.tag) == opt_view(p.tag),
        opt_view(f.q) == opt_view(p.q),
        strings_view(f.include_status@) == included_statuses_spec(p.include_stale),
        f.limit == (match p.limit {
            Some(l) => Some(l),
            None => Some(100i64),
        }),
        f.offset == p.offset,
{
    ListFilters {
        scope: p.scope,
        knowledge_type: p.knowledge_type,
        domain: p.domain,
        tag: p.tag,
        q: p.q,
        include_status: included_statuses(p.include_stale),
        limit: match p.limit {
            Some(l) => Some(l),
            None => Some(100),
        },
        offset: p.offset,
    }
}

/// The filters of the graph view: every active item, up to 5000.
pub fn graph_filters() -> (f: ListFilters)
    ensures
        f.scope is None && f.knowledge_type is None && f.domain is None && f.tag is None,
        f.q is None,
        strings_view(f.include_status@) == included_statuses_spec(false),
        f.limit == Some(5000i64),
        f.offset is None,
{
    ListFilters {
        scope: None,
        knowledge_type: None,
        domain: None,
        tag: None,
        q: None,
        include_status: included_statuses(false),
        limit: Some(5000),
        offset: None,
    }
}

/// The candidate pool of a context query: the full-text query of its task,
/// its statuses, and five candidates per item asked for (at most 200).
pub fn query_filters(q: &Query) -> (f: ListFilters)
    requires
        q.max_items <= usize::MAX / 5,
    ensures
        f.scope is None && f.knowledge_type is None && f.domain is None && f.tag is None,
        opt_view(f.q) == fts_query_spec(q.task@),
        strings_view(f.include_status@) == included_statuses_spec(q.include_stale),
        f.limit == Some(pool_size_spec(q.max_items as nat) as i64),
        f.offset is None,
{
    let n = pool_size(q.max_items);
    ListFilters {
        scope: None,
        knowledge_type: None,
        domain: None,
        tag: None,
        q: fts_query(q.task.as_str()),
        include_status: included_statuses(q.include_stale),
        limit: Some(n as i64),
        offset: None,
    }
}

/// Summary counts of the index.
#[derive(Debug)]
pub struct VaultStats {
    pub total: i64,
    pub by_scope: Vec<(String, i64)>,
    pub by_type: Vec<(String, i64)>,
}

/// One row of the review queue.
#[derive(Debug)]
pub struct QueueEntry {
    pub id: String,
    pub kind: String,
    pub target_id: Option<String>,
    pub proposed_by: String,
    pub proposed_at: String,
    pub status: String,
    pub payload_json: String,
    pub rationale: Option<String>,
}

/// The columns of an item and the table they are read from.
pub open spec fn select_items() -> Seq<char> {
    "SELECT i.id, i.knowledge_type, i.scope, i.confidence, i.source_type, i.status, i.stability,\n                i.created, i.modified, i.valid_from, i.valid_until, i.domain, i.title, i.body_text,\n                i.body_html, i.tags_concat, i.relations_json, i.claim_key\n         FROM items i"@
}

/// `n` placeholders separated by commas.
pub open spec fn placeholders(n: nat) -> Seq<char>
    decreases n,
{
    if n == 0 {
        Seq::empty()
    } else if n == 1 {
        seq!['?']
    } else {
        placeholders((n - 1) as nat) + ", ?"@
    }
}

/// The status condition: not deleted, or one of the listed statuses.
pub open spec fn status_clause(statuses: Seq<Seq<char>>) -> Seq<char> {
    if statuses.len() == 0 {
        "i.status != 'deleted'"@
    } else {
        "i.status IN ("@ + placeholders(statuses.len()) + seq![')']
    }
}

pub open spec fn opt_clause(o: Option<Seq<char>>, clause: Seq<char>) -> Seq<Seq<char>> {
    match o {
        Some(_) => seq![clause],
        None => Seq::empty(),
    }
}

pub open spec fn opt_arg(o: Option<Seq<char>>) -> Seq<Seq<char>> {
    match o {
        Some(v) => seq![v],
        None => Seq::empty(),
    }
}

pub open spec fn tag_clause() -> Seq<char> {
    "EXISTS (SELECT 1 FROM tags WHERE tags.item_id = i.id AND tags.tag = ?)"@
}

/// The conditions of a listing, in order.
pub open spec fn where_clauses(f: ListFilters) -> Seq<Seq<char>> {
    opt_clause(opt_view(f.q), "items_fts MATCH ?"@) + opt_clause(
        opt_view(f.scope),
        "i.scope = ?"@,
    ) + opt_clause(opt_view(f.knowledge_type), "i.knowledge_type = ?"@) + opt_clause(
        opt_view(f.domain),
        "i.domain = ?"@,
    ) + opt_clause(opt_view(f.tag), tag_clause()) + seq![status_clause(strings_view(f.include_status@))]
}

/// The arguments of a listing, in the order of their placeholders.
pub open spec fn list_args(f: ListFilters) -> Seq<Seq<char>> {
    opt_arg(opt_view(f.q)) + opt_arg(opt_view(f.scope)) + opt_arg(opt_view(f.knowledge_type))
        + opt_arg(opt_view(f.domain)) + opt_arg(opt_view(f.tag)) + strings_view(f.include_status@)
}

/// The listing statement: the item columns, joined with the full-text
/// table when there is a full-text query, the conditions, ordered by rank
/// for a full-text query and by modification time otherwise, then the
/// limit and offset.
pub open spec fn list_sql(f: ListFilters) -> Seq<char> {
    select_items() + (if f.q is Some {
        " JOIN items_fts ON items_fts.id = i.id "@
    } else {
        Seq::empty()
    }) + " WHERE "@ + join(where_clauses(f), " AND "@) + (if f.q is Some {
        " ORDER BY rank"@
    } else {
        " ORDER BY i.modified DESC"@
    }) + (match f.limit {
        Some(l) => " LIMIT "@ + int_decimal(l as int),
        None => Seq::empty(),
    }) + (match f.offset {
        Some(o) => " OFFSET "@ + int_decimal(o as int),
        None => Seq::empty(),
    })
}

fn push_opt(
    wheres: &mut Vec<String>,
    args: &mut Vec<String>,
    value: &Option<String>,
    clause: &str,
)
    ensures
        strings_view(final(wheres)@) == strings_view(old(wheres)@) + opt_clause(
            opt_view(*value),
            clause@,
        ),
        strings_view(final(args)@) == strings_view(old(args)@) + opt_arg(opt_view(*value)),
{
    let ghost w0 = strings_view(wheres@);
    let ghost a0 = strings_view(args@);
    if let Some(v) = value {
        wheres.push(to_owned_string(clause));
        args.push(v.clone());
        assert(strings_view(wheres@) =~= w0 + seq![clause@]);
        assert(strings_view(args@) =~= a0 + seq![v@]);
    } else {
        assert(strings_view(wheres@) =~= w0 + Seq::<Seq<char>>::empty());
        assert(strings_view(args@) =~= a0 + Seq::<Seq<char>>::empty());
    }
}

fn placeholder_list(n: usize) -> (r: String)
    ensures
        r@ == placeholders(n as nat),
{
    let mut r = String::new();
    let mut i: usize = 0;
    while i < n
        invariant
            i <= n,
            r@ == placeholders(i as nat),
        decreases n - i,
    {
        if i == 0 {
            r.push('?');
        } else {
            r.append(", ?");
        }
        i += 1;
    }
    r
}

/// The listing statement and its arguments.
#[verifier::spinoff_prover]
#[verifier::rlimit(50)]
pub fn build_list_query(f: &ListFilters) -> (r: (String, Vec<String>))
    ensures
        r.0@ == list_sql(*f),
        strings_view(r.1@) == list_args(*f),
        f.q matches Some(v) ==> clause_binds(r.0@, strings_view(r.1@), "items_fts MATCH ?"@, 16, v@),
        f.scope matches Some(v) ==> clause_binds(r.0@, strings_view(r.1@), "i.scope = ?"@, 10, v@),
        f.knowledge_type matches Some(v) ==> clause_binds(
            r.0@,
            strings_view(r.1@),
            "i.knowledge_type = ?"@,
            19,
            v@,
        ),
        f.domain matches Some(v) ==> clause_binds(r.0@, strings_view(r.1@), "i.domain = ?"@, 11, v@),
        f.tag matches Some(v) ==> clause_binds(r.0@, strings_view(r.1@), tag_clause(), 68, v@),
        forall|k: int|
            0 <= k < f.include_status.len() ==> clause_binds(
                r.0@,
                strings_view(r.1@),
                "i.status IN ("@ + placeholders(f.include_status.len() as nat) + seq![')'],
                13 + 3 * k,
                (#[trigger] f.include_status@[k])@,
            ),
{
    let mut sql = to_owned_string(
        "SELECT i.id, i.knowledge_type, i.scope, i.confidence, i.source_type, i.status, i.stability,\n                i.created, i.modified, i.valid_from, i.valid_until, i.domain, i.title, i.body_text,\n                i.body_html, i.tags_concat, i.relations_json, i.claim_key\n         FROM items i",
    );
    let mut args: Vec<String> = Vec::new();
    let mut wheres: Vec<String> = Vec::new();
    assert(strings_view(wheres@) =~= Seq::<Seq<char>>::empty());
    assert(strings_view(args@) =~= Seq::<Seq<char>>::empty());
    if f.q.is_some() {
        sql.append(" JOIN items_fts ON items_fts.id = i.id ");
    }
    push_opt(&mut wheres, &mut args, &f.q, "items_fts MATCH ?");
    push_opt(&mut wheres, &mut args, &f.scope, "i.scope = ?");
    push_opt(&mut wheres, &mut args, &f.knowledge_type, "i.knowledge_type = ?");
    push_opt(&mut wheres, &mut args, &f.domain, "i.domain = ?");
    push_opt(
        &mut wheres,
        &mut args,
        &f.tag,
        "EXISTS (SELECT 1 FROM tags WHERE tags.item_id = i.id AND tags.tag = ?)",
    );
    let ghost w5 = strings_view(wheres@);
    let ghost a5 = strings_view(args@);
    if f.include_status.len() == 0 {
        let clause = to_owned_string("i.status != 'deleted'");
        assert(clause@ == status_clause(strings_view(f.include_status@)));
        wheres.push(clause);
        assert(strings_view(wheres@) =~= w5.push(clause@));
    } else {
        let mut clause = to_owned_string("i.status IN (");
        clause.append(placeholder_list(f.include_status.len()).as_str());
        clause.push(')');
        assert(clause@ =~= status_clause(strings_view(f.include_status@)));
        let ghost cv = clause@;
        wheres.push(clause);
        assert(strings_view(wheres@) =~= w5.push(cv));
        let mut k: usize = 0;
        while k < f.include_status.len()
            invariant
                k <= f.include_status.len(),
                strings_view(args@) == a5 + strings_view(f.include_status@.take(k as int)),
            decreases f.include_status.len() - k,
        {
            let ghost before = strings_view(args@);
            args.push(f.include_status[k].clone());
            assert(strings_view(args@) =~= before.push(f.include_status@[k as int]@));
            assert(strings_view(f.include_status@.take(k + 1)) =~= strings_view(
                f.include_status@.take(k as int),
            ).push(f.include_status@[k as int]@));
            k += 1;
        }
        assert(f.include_status@.take(f.include_status.len() as int) =~= f.include_status@);
    }
    assert(strings_view(wheres@) =~= w5 + seq![status_clause(strings_view(f.include_status@))]);
    assert(strings_view(wheres@) =~= where_clauses(*f));
    assert(strings_view(args@) =~= list_args(*f));
    sql.append(" WHERE ");
    sql.append(join_strings(&wheres, " AND ").as_str());
    if f.q.is_some() {
        sql.append(" ORDER BY rank");
    } else {
        sql.append(" ORDER BY i.modified DESC");
    }
    if let Some(limit) = f.limit {
        sql.append(" LIMIT ");
        sql.append(i64_to_string(limit).as_str());
    }
    if let Some(offset) = f.offset {
        sql.append(" OFFSET ");
        sql.append(i64_to_string(offset).as_str());
    }
    proof {
        assert(sql@ =~= list_sql(*f));
        assert(strings_view(args@) =~= list_args(*f));
        lemma_sql_binds(*f, sql@, strings_view(args@));
    }
    (sql, args)
}

/// `lemma_list_query_binds` for a statement and arguments equal to the
/// listing's.
proof fn lemma_sql_binds(f: ListFilters, sql: Seq<char>, args: Seq<Seq<char>>)
    requires
        sql == list_sql(f),
        args == list_args(f),
    ensures
        f.q matches Some(v) ==> clause_binds(sql, args, "items_fts MATCH ?"@, 16, v@),
        f.scope matches Some(v) ==> clause_binds(sql, args, "i.scope = ?"@, 10, v@),
        f.knowledge_type matches Some(v) ==> clause_binds(sql, args, "i.knowledge_type = ?"@, 19, v@),
        f.domain matches Some(v) ==> clause_binds(sql, args, "i.domain = ?"@, 11, v@),
        f.tag matches Some(v) ==> clause_binds(sql, args, tag_clause(), 68, v@),
        forall|k: int|
            0 <= k < f.include_status.len() ==> clause_binds(
                sql,
                args,
                "i.status IN ("@ + placeholders(f.include_status.len() as nat) + seq![')'],
                13 + 3 * k,
                (#[trigger] f.include_status@[k])@,
            ),
{
    lemma_list_query_binds(f);
}

// ---------------------------------------------------------------------------
// Every placeholder has its argument
// ---------------------------------------------------------------------------
pub open spec fn count_q(s: Seq<char>) -> nat
    decreases s.len(),
{
    if s.len() == 0 {
        0
    } else {
        count_q(s.drop_last()) + (if s.last() == '?' {
            1nat
        } else {
            0nat
        })
    }
}

proof fn lemma_count_q_concat(a: Seq<char>, b: Seq<char>)
    ensures
        count_q(a + b) == count_q(a) + count_q(b),
    decreases b.len(),
{
    if b.len() == 0 {
        assert(a + b =~= a);
    } else {
        lemma_count_q_concat(a, b.drop_last());
        assert((a + b).drop_last() =~= a + b.drop_last());
    }
}

proof fn lemma_count_q_none(s: Seq<char>)
    requires
        forall|i: int| 0 <= i < s.len() ==> s[i] != '?',
    ensures
        count_q(s) == 0,
    decreases s.len(),
{
    if s.len() > 0 {
        lemma_count_q_none(s.drop_last());
    }
}

pub open spec fn count_q_all(ws: Seq<Seq<char>>) -> nat
    decreases ws.len(),
{
    if ws.len() == 0 {
        0
    } else {
        count_q_all(ws.drop_last()) + count_q(ws.last())
    }
}

proof fn lemma_count_q_join(ws: Seq<Seq<char>>, sep: Seq<char>)
    requires
        count_q(sep) == 0,
    ensures
        count_q(join(ws, sep)) == count_q_all(ws),
    decreases ws.len(),
{
    if ws.len() == 0 {
        assert(count_q(Seq::<char>::empty()) == 0);
    }
    if ws.len() == 1 {
        assert(ws.drop_last() =~= Seq::<Seq<char>>::empty());
        assert(count_q_all(Seq::<Seq<char>>::empty()) == 0);
        assert(ws.last() == ws[0]);
    }
    if ws.len() > 1 {
        lemma_count_q_join(ws.drop_last(), sep);
        lemma_count_q_concat(join(ws.drop_last(), sep), sep);
        lemma_count_q_concat(join(ws.drop_last(), sep) + sep, ws.last());
    }
}

proof fn lemma_count_q_all_concat(a: Seq<Seq<char>>, b: Seq<Seq<char>>)
    ensures
        count_q_all(a + b) == count_q_all(a) + count_q_all(b),
    decreases b.len(),
{
    if b.len() == 0 {
        assert(a + b =~= a);
    } else {
        lemma_count_q_all_concat(a, b.drop_last());
        assert((a + b).drop_last() =~= a + b.drop_last());
    }
}

proof fn lemma_count_placeholders(n: nat)
    ensures
        count_q(placeholders(n)) == n,
    decreases n,
{
    reveal_strlit(", ?");
    if n == 1 {
        lemma_count_literal_one(seq!['?'], 0);
    }
    if n > 1 {
        lemma_count_placeholders((n - 1) as nat);
        lemma_count_q_concat(placeholders((n - 1) as nat), ", ?"@);
        lemma_count_literal_one(", ?"@, 2);
    }
}

proof fn lemma_count_opt_clause(o: Option<Seq<char>>, clause: Seq<char>)
    requires
        count_q(clause) == 1,
    ensures
        count_q_all(opt_clause(o, clause)) == opt_arg(o).len(),
{
    assert(count_q_all(Seq::<Seq<char>>::empty()) == 0);
    if o is Some {
        assert(opt_clause(o, clause).drop_last() =~= Seq::<Seq<char>>::empty());
        assert(opt_clause(o, clause).last() == clause);
    }
}

proof fn lemma_count_literal_one(s: Seq<char>, k: int)
    requires
        0 <= k < s.len(),
        s[k] == '?',
        forall|i: int| 0 <= i < s.len() && i != k ==> s[i] != '?',
    ensures
        count_q(s) == 1,
{
    let a = s.take(k);
    let b = s.skip(k + 1);
    assert forall|i: int| 0 <= i < a.len() implies a[i] != '?' by {
        assert(a[i] == s[i]);
    }
    assert forall|i: int| 0 <= i < b.len() implies b[i] != '?' by {
        assert(b[i] == s[i + k + 1]);
    }
    lemma_count_q_none(a);
    lemma_count_q_none(b);
    assert(s =~= a + seq!['?'] + b);
    lemma_count_q_concat(a, seq!['?']);
    lemma_count_q_concat(a + seq!['?'], b);
    assert(seq!['?'].drop_last() =~= Seq::<char>::empty());
    assert(count_q(Seq::<char>::empty()) == 0);
    assert(count_q(seq!['?']) == 1);
}

/// The statement has exactly as many `?` placeholders as there are
/// arguments, the filter values binding in order.
pub proof fn lemma_list_query_placeholders(f: ListFilters)
    ensures
        count_q(list_sql(f)) == list_args(f).len(),
{
    reveal_strlit("SELECT i.id, i.knowledge_type, i.scope, i.confidence, i.source_type, i.status, i.stability,\n                i.created, i.modified, i.valid_from, i.valid_until, i.domain, i.title, i.body_text,\n                i.body_html, i.tags_concat, i.relations_json, i.claim_key\n         FROM items i");
    reveal_strlit(" JOIN items_fts ON items_fts.id = i.id ");
    reveal_strlit(" WHERE ");
    reveal_strlit(" AND ");
    reveal_strlit(" ORDER BY rank");
    reveal_strlit(" ORDER BY i.modified DESC");
    reveal_strlit(" LIMIT ");
    reveal_strlit(" OFFSET ");
    reveal_strlit("items_fts MATCH ?");
    reveal_strlit("i.scope = ?");
    reveal_strlit("i.knowledge_type = ?");
    reveal_strlit("i.domain = ?");
    reveal_strlit("EXISTS (SELECT 1 FROM tags WHERE tags.item_id = i.id AND tags.tag = ?)");
    reveal_strlit("i.status != 'deleted'");
    reveal_strlit("i.status IN (");
    lemma_count_q_none(select_items());
    lemma_count_q_none(" JOIN items_fts ON items_fts.id = i.id "@);
    lemma_count_q_none(" WHERE "@);
    lemma_count_q_none(" AND "@);
    lemma_count_q_none(" ORDER BY rank"@);
    lemma_count_q_none(" ORDER BY i.modified DESC"@);
    lemma_count_q_none(" LIMIT "@);
    lemma_count_q_none(" OFFSET "@);
    lemma_count_q_none(Seq::<char>::empty());
    lemma_count_literal_one("items_fts MATCH ?"@, 16);
    lemma_count_literal_one("i.scope = ?"@, 10);
    lemma_count_literal_one("i.knowledge_type = ?"@, 19);
    lemma_count_literal_one("i.domain = ?"@, 11);
    lemma_count_literal_one(tag_clause(), 68);
    let st = strings_view(f.include_status@);
    if st.len() == 0 {
        lemma_count_q_none("i.status != 'deleted'"@);
    } else {
        lemma_count_q_none("i.status IN ("@);
        lemma_count_placeholders(st.len());
        lemma_count_q_concat("i.status IN ("@, placeholders(st.len()));
        lemma_count_q_concat("i.status IN ("@ + placeholders(st.len()), seq![')']);
        assert(seq![')'].drop_last() =~= Seq::<char>::empty());
    }
    assert(count_q(status_clause(st)) == st.len());
    let c1 = opt_clause(opt_view(f.q), "items_fts MATCH ?"@);
    let c2 = opt_clause(opt_view(f.scope), "i.scope = ?"@);
    let c3 = opt_clause(opt_view(f.knowledge_type), "i.knowledge_type = ?"@);
    let c4 = opt_clause(opt_view(f.domain), "i.domain = ?"@);
    let c5 = opt_clause(opt_view(f.tag), tag_clause());
    let c6 = seq![status_clause(st)];
    lemma_count_opt_clause(opt_view(f.q), "items_fts MATCH ?"@);
    lemma_count_opt_clause(opt_view(f.scope), "i.scope = ?"@);
    lemma_count_opt_clause(opt_view(f.knowledge_type), "i.knowledge_type = ?"@);
    lemma_count_opt_clause(opt_view(f.domain), "i.domain = ?"@);
    lemma_count_opt_clause(opt_view(f.tag), tag_clause());
    assert(c6.drop_last() =~= Seq::<Seq<char>>::empty());
    assert(c6.last() == status_clause(st));
    assert(count_q_all(Seq::<Seq<char>>::empty()) == 0);
    lemma_count_q_all_concat(c1, c2);
    lemma_count_q_all_concat(c1 + c2, c3);
    lemma_count_q_all_concat(c1 + c2 + c3, c4);
    lemma_count_q_all_concat(c1 + c2 + c3 + c4, c5);
    lemma_count_q_all_concat(c1 + c2 + c3 + c4 + c5, c6);
    lemma_count_q_join(where_clauses(f), " AND "@);
    assert(where_clauses(f) == c1 + c2 + c3 + c4 + c5 + c6);
    assert(count_q_all(c6) == st.len());
    assert(count_q_all(where_clauses(f)) == list_args(f).len());
    let join_part = if f.q is Some {
        " JOIN items_fts ON items_fts.id = i.id "@
    } else {
        Seq::<char>::empty()
    };
    let order = if f.q is Some {
        " ORDER BY rank"@
    } else {
        " ORDER BY i.modified DESC"@
    };
    let lim = match f.limit {
        Some(l) => " LIMIT "@ + int_decimal(l as int),
        None => Seq::<char>::empty(),
    };
    let off = match f.offset {
        Some(o) => " OFFSET "@ + int_decimal(o as int),
        None => Seq::<char>::empty(),
    };
    lemma_int_decimal_no_q(f.limit);
    lemma_int_decimal_no_q(f.offset);
    if let Some(l) = f.limit {
        lemma_count_q_concat(" LIMIT "@, int_decimal(l as int));
    }
    if let Some(o) = f.offset {
        lemma_count_q_concat(" OFFSET "@, int_decimal(o as int));
    }
    let w = join(where_clauses(f), " AND "@);
    lemma_count_q_concat(select_items(), join_part);
    lemma_count_q_concat(select_items() + join_part, " WHERE "@);
    lemma_count_q_concat(select_items() + join_part + " WHERE "@, w);
    lemma_count_q_concat(select_items() + join_part + " WHERE "@ + w, order);
    lemma_count_q_concat(select_items() + join_part + " WHERE "@ + w + order, lim);
    lemma_count_q_concat(select_items() + join_part + " WHERE "@ + w + order + lim, off);
    assert(list_sql(f) == select_items() + join_part + " WHERE "@ + w + order + lim + off);
}

proof fn lemma_int_decimal_no_q(v: Option<i64>)
    ensures
        v matches Some(x) ==> count_q(int_decimal(x as int)) == 0,
{
    if let Some(x) = v {
        let n = if x < 0 {
            -(x as int)
        } else {
            x as int
        };
        crate::decimal::lemma_decimal(n as nat);
        let d = crate::decimal::decimal(n as nat);
        assert forall|i: int| 0 <= i < d.len() implies d[i] != '?' by {
            assert(crate::text::is_ascii_digit(d[i]));
        }
        lemma_count_q_none(d);
        if x < 0 {
            lemma_count_q_none(seq!['-']);
            lemma_count_q_concat(seq!['-'], d);
        }
    }
}

// ---------------------------------------------------------------------------
// Each placeholder is bound to its own filter's value
// ---------------------------------------------------------------------------
/// `clause` stands in `sql` at position `p`.
pub open spec fn clause_at(sql: Seq<char>, clause: Seq<char>, p: int) -> bool {
    0 <= p && p + clause.len() <= sql.len() && sql.subrange(p, p + clause.len()) == clause
}

/// The `?` at position `q` of `sql` is bound to `v`: the argument whose
/// index is the number of `?` before it is `v`.
pub open spec fn binds(sql: Seq<char>, args: Seq<Seq<char>>, q: int, v: Seq<char>) -> bool {
    &&& 0 <= q < sql.len()
    &&& sql[q] == '?'
    &&& count_q(sql.take(q)) < args.len()
    &&& args[count_q(sql.take(q)) as int] == v
}

/// The statement holds `clause`, and the `?` at offset `at` within it is
/// bound to `v`.
pub open spec fn clause_binds(
    sql: Seq<char>,
    args: Seq<Seq<char>>,
    clause: Seq<char>,
    at: int,
    v: Seq<char>,
) -> bool {
    exists|p: int| #[trigger] clause_at(sql, clause, p) && binds(sql, args, p + at, v)
}

/// What a join puts before its `j`-th part.
pub open spec fn join_before(ws: Seq<Seq<char>>, j: int, sep: Seq<char>) -> Seq<char> {
    if j == 0 {
        Seq::empty()
    } else {
        join(ws.take(j), sep) + sep
    }
}

proof fn lemma_join_at(ws: Seq<Seq<char>>, sep: Seq<char>, j: int) -> (rest: Seq<char>)
    requires
        0 <= j < ws.len(),
    ensures
        join(ws, sep) == join_before(ws, j, sep) + ws[j] + rest,
    decreases ws.len(),
{
    if j == ws.len() - 1 {
        if ws.len() == 1 {
            assert(join_before(ws, j, sep) + ws[j] + Seq::<char>::empty() =~= ws[0]);
        } else {
            assert(ws.take(j) =~= ws.drop_last());
            assert(join(ws, sep) =~= join_before(ws, j, sep) + ws[j] + Seq::<char>::empty());
        }
        Seq::empty()
    } else {
        let r = lemma_join_at(ws.drop_last(), sep, j);
        assert(ws.drop_last().take(j) =~= ws.take(j));
        assert(ws.drop_last()[j] == ws[j]);
        assert(join(ws, sep) =~= join_before(ws, j, sep) + ws[j] + (r + sep + ws.last()));
        r + sep + ws.last()
    }
}

proof fn lemma_count_join_before(ws: Seq<Seq<char>>, j: int, sep: Seq<char>)
    requires
        0 <= j <= ws.len(),
        count_q(sep) == 0,
    ensures
        count_q(join_before(ws, j, sep)) == count_q_all(ws.take(j)),
{
    if j == 0 {
        assert(ws.take(0) =~= Seq::<Seq<char>>::empty());
        assert(count_q_all(Seq::<Seq<char>>::empty()) == 0);
        assert(count_q(Seq::<char>::empty()) == 0);
    } else {
        lemma_count_q_join(ws.take(j), sep);
        lemma_count_q_concat(join(ws.take(j), sep), sep);
    }
}

/// The statement is its head, its conditions joined by `AND`, then its
/// tail; the head holds no `?`.
proof fn lemma_sql_parts(f: ListFilters) -> (parts: (Seq<char>, Seq<char>))
    ensures
        list_sql(f) == parts.0 + join(where_clauses(f), " AND "@) + parts.1,
        count_q(parts.0) == 0,
        count_q(" AND "@) == 0,
{
    reveal_strlit("SELECT i.id, i.knowledge_type, i.scope, i.confidence, i.source_type, i.status, i.stability,\n                i.created, i.modified, i.valid_from, i.valid_until, i.domain, i.title, i.body_text,\n                i.body_html, i.tags_concat, i.relations_json, i.claim_key\n         FROM items i");
    reveal_strlit(" JOIN items_fts ON items_fts.id = i.id ");
    reveal_strlit(" WHERE ");
    reveal_strlit(" AND ");
    lemma_count_q_none(select_items());
    lemma_count_q_none(" JOIN items_fts ON items_fts.id = i.id "@);
    lemma_count_q_none(" WHERE "@);
    lemma_count_q_none(" AND "@);
    lemma_count_q_none(Seq::<char>::empty());
    let join_part = if f.q is Some {
        " JOIN items_fts ON items_fts.id = i.id "@
    } else {
        Seq::<char>::empty()
    };
    let order = if f.q is Some {
        " ORDER BY rank"@
    } else {
        " ORDER BY i.modified DESC"@
    };
    let lim = match f.limit {
        Some(l) => " LIMIT "@ + int_decimal(l as int),
        None => Seq::<char>::empty(),
    };
    let off = match f.offset {
        Some(o) => " OFFSET "@ + int_decimal(o as int),
        None => Seq::<char>::empty(),
    };
    let head = select_items() + join_part + " WHERE "@;
    lemma_count_q_concat(select_items(), join_part);
    lemma_count_q_concat(select_items() + join_part, " WHERE "@);
    let w = join(where_clauses(f), " AND "@);
    assert(list_sql(f) =~= head + w + (order + lim + off));
    (head, order + lim + off)
}

/// The `j`-th condition is `clause`, its `?` at offset `at` is preceded
/// within it by `c` others, and the argument at index `idx`, the number of
/// `?` before it in the statement, is `v`: then the statement binds `v`
/// there.
#[verifier::spinoff_prover]
proof fn lemma_clause_binds(
    f: ListFilters,
    j: int,
    clause: Seq<char>,
    at: int,
    c: nat,
    idx: int,
    v: Seq<char>,
)
    requires
        0 <= j < where_clauses(f).len(),
        where_clauses(f)[j] == clause,
        0 <= at < clause.len(),
        clause[at] == '?',
        count_q(clause.take(at)) == c,
        count_q_all(where_clauses(f).take(j)) + c == idx,
        0 <= idx < list_args(f).len(),
        list_args(f)[idx] == v,
    ensures
        clause_binds(list_sql(f), list_args(f), clause, at, v),
{
    let ws = where_clauses(f);
    let sql = list_sql(f);
    let parts = lemma_sql_parts(f);
    let rest = lemma_join_at(ws, " AND "@, j);
    lemma_count_join_before(ws, j, " AND "@);
    let before = parts.0 + join_before(ws, j, " AND "@);
    lemma_count_q_concat(parts.0, join_before(ws, j, " AND "@));
    assert(sql =~= before + clause + (rest + parts.1));
    let p = before.len() as int;
    assert(sql.subrange(p, p + clause.len()) =~= clause);
    assert(clause_at(sql, clause, p));
    assert(sql[p + at] == clause[at]);
    assert(sql.take(p + at) =~= before + clause.take(at));
    lemma_count_q_concat(before, clause.take(at));
    assert(binds(sql, list_args(f), p + at, v));
}

proof fn lemma_opt_parts(o: Option<Seq<char>>, clause: Seq<char>)
    requires
        count_q(clause) == 1,
    ensures
        count_q_all(opt_clause(o, clause)) == opt_arg(o).len(),
        opt_clause(o, clause).len() == opt_arg(o).len(),
{
    lemma_count_opt_clause(o, clause);
}

/// Where `?` stands in `n` comma-separated placeholders.
proof fn lemma_placeholder_at(n: nat, k: nat)
    requires
        k < n,
    ensures
        placeholders(n).len() == 3 * n - 2,
        placeholders(n)[3 * k as int] == '?',
        count_q(placeholders(n).take(3 * k as int)) == k,
    decreases n,
{
    reveal_strlit(", ?");
    reveal_strlit(", ");
    if n == 1 {
        assert(placeholders(1) =~= seq!['?']);
        assert(placeholders(1).take(0) =~= Seq::<char>::empty());
        assert(count_q(Seq::<char>::empty()) == 0);
    } else {
        let prev = placeholders((n - 1) as nat);
        assert(placeholders(n) == prev + ", ?"@);
        if k < n - 1 {
            lemma_placeholder_at((n - 1) as nat, k);
            assert(placeholders(n).take(3 * k as int) =~= prev.take(3 * k as int));
        } else {
            lemma_placeholder_at((n - 1) as nat, 0);
            lemma_count_placeholders((n - 1) as nat);
            assert(placeholders(n).take(3 * k as int) =~= prev + ", "@);
            lemma_count_q_none(", "@);
            lemma_count_q_concat(prev, ", "@);
        }
    }
}

/// The conditions and the arguments of a listing, filter by filter: each
/// present filter adds one condition with one `?` and one argument.
#[verifier::spinoff_prover]
proof fn lemma_list_parts(f: ListFilters)
    ensures
        where_clauses(f) == opt_clause(opt_view(f.q), "items_fts MATCH ?"@) + opt_clause(
            opt_view(f.scope),
            "i.scope = ?"@,
        ) + opt_clause(opt_view(f.knowledge_type), "i.knowledge_type = ?"@) + opt_clause(
            opt_view(f.domain),
            "i.domain = ?"@,
        ) + opt_clause(opt_view(f.tag), tag_clause()) + seq![status_clause(strings_view(f.include_status@))],
        list_args(f) == opt_arg(opt_view(f.q)) + opt_arg(opt_view(f.scope)) + opt_arg(
            opt_view(f.knowledge_type),
        ) + opt_arg(opt_view(f.domain)) + opt_arg(opt_view(f.tag)) + strings_view(f.include_status@),
        count_q_all(opt_clause(opt_view(f.q), "items_fts MATCH ?"@)) == opt_arg(opt_view(f.q)).len(),
        count_q_all(opt_clause(opt_view(f.scope), "i.scope = ?"@)) == opt_arg(opt_view(f.scope)).len(),
        count_q_all(opt_clause(opt_view(f.knowledge_type), "i.knowledge_type = ?"@)) == opt_arg(
            opt_view(f.knowledge_type),
        ).len(),
        count_q_all(opt_clause(opt_view(f.domain), "i.domain = ?"@)) == opt_arg(opt_view(f.domain)).len(),
        count_q_all(opt_clause(opt_view(f.tag), tag_clause())) == opt_arg(opt_view(f.tag)).len(),
        count_q("items_fts MATCH ?"@.take(16)) == 0,
        count_q("i.scope = ?"@.take(10)) == 0,
        count_q("i.knowledge_type = ?"@.take(19)) == 0,
        count_q("i.domain = ?"@.take(11)) == 0,
        count_q(tag_clause().take(68)) == 0,
        "items_fts MATCH ?"@.len() == 17 && "items_fts MATCH ?"@[16] == '?',
        "i.scope = ?"@.len() == 11 && "i.scope = ?"@[10] == '?',
        "i.knowledge_type = ?"@.len() == 20 && "i.knowledge_type = ?"@[19] == '?',
        "i.domain = ?"@.len() == 12 && "i.domain = ?"@[11] == '?',
        tag_clause().len() == 70 && tag_clause()[68] == '?',
{
    reveal_strlit("items_fts MATCH ?");
    reveal_strlit("i.scope = ?");
    reveal_strlit("i.knowledge_type = ?");
    reveal_strlit("i.domain = ?");
    reveal_strlit("EXISTS (SELECT 1 FROM tags WHERE tags.item_id = i.id AND tags.tag = ?)");
    lemma_count_literal_one("items_fts MATCH ?"@, 16);
    lemma_count_literal_one("i.scope = ?"@, 10);
    lemma_count_literal_one("i.knowledge_type = ?"@, 19);
    lemma_count_literal_one("i.domain = ?"@, 11);
    lemma_count_literal_one(tag_clause(), 68);
    lemma_count_q_none("items_fts MATCH ?"@.take(16));
    lemma_count_q_none("i.scope = ?"@.take(10));
    lemma_count_q_none("i.knowledge_type = ?"@.take(19));
    lemma_count_q_none("i.domain = ?"@.take(11));
    lemma_count_q_none(tag_clause().take(68));
    lemma_opt_parts(opt_view(f.q), "items_fts MATCH ?"@);
    lemma_opt_parts(opt_view(f.scope), "i.scope = ?"@);
    lemma_opt_parts(opt_view(f.knowledge_type), "i.knowledge_type = ?"@);
    lemma_opt_parts(opt_view(f.domain), "i.domain = ?"@);
    lemma_opt_parts(opt_view(f.tag), tag_clause());
}

/// A filter's condition stands after the conditions `pre` (whose `?` count
/// `pre_args.len()`) and its value after the arguments `pre_args`: then
/// the condition's `?` is bound to the value.
proof fn lemma_filter_binds(
    f: ListFilters,
    pre: Seq<Seq<char>>,
    pre_args: Seq<Seq<char>>,
    clause: Seq<char>,
    at: int,
    v: Seq<char>,
)
    requires
        pre.len() < where_clauses(f).len(),
        where_clauses(f).take(pre.len() as int) == pre,
        where_clauses(f)[pre.len() as int] == clause,
        count_q_all(pre) == pre_args.len(),
        0 <= at < clause.len(),
        clause[at] == '?',
        count_q(clause.take(at)) == 0,
        pre_args.len() < list_args(f).len(),
        list_args(f)[pre_args.len() as int] == v,
    ensures
        clause_binds(list_sql(f), list_args(f), clause, at, v),
{
    lemma_clause_binds(f, pre.len() as int, clause, at, 0, pre_args.len() as int, v);
}

#[verifier::spinoff_prover]
proof fn lemma_binds_q(f: ListFilters)
    ensures
        f.q matches Some(v) ==> clause_binds(
            list_sql(f),
            list_args(f),
            "items_fts MATCH ?"@,
            16,
            v@,
        ),
{
    lemma_list_parts(f);
    if let Some(v) = f.q {
        let e = Seq::<Seq<char>>::empty();
        assert(where_clauses(f).take(0) =~= e);
        assert(count_q_all(e) == 0);
        lemma_filter_binds(f, e, e, "items_fts MATCH ?"@, 16, v@);
    }
}

#[verifier::spinoff_prover]
proof fn lemma_binds_scope(f: ListFilters)
    ensures
        f.scope matches Some(v) ==> clause_binds(list_sql(f), list_args(f), "i.scope = ?"@, 10, v@),
{
    lemma_list_parts(f);
    if let Some(v) = f.scope {
        let c1 = opt_clause(opt_view(f.q), "items_fts MATCH ?"@);
        let a1 = opt_arg(opt_view(f.q));
        assert(where_clauses(f).take(c1.len() as int) =~= c1);
        lemma_filter_binds(f, c1, a1, "i.scope = ?"@, 10, v@);
    }
}

#[verifier::spinoff_prover]
proof fn lemma_binds_type(f: ListFilters)
    ensures
        f.knowledge_type matches Some(v) ==> clause_binds(
            list_sql(f),
            list_args(f),
            "i.knowledge_type = ?"@,
            19,
            v@,
        ),
{
    lemma_list_parts(f);
    if let Some(v) = f.knowledge_type {
        let c = opt_clause(opt_view(f.q), "items_fts MATCH ?"@) + opt_clause(
            opt_view(f.scope),
            "i.scope = ?"@,
        );
        let a = opt_arg(opt_view(f.q)) + opt_arg(opt_view(f.scope));
        lemma_count_q_all_concat(
            opt_clause(opt_view(f.q), "items_fts MATCH ?"@),
            opt_clause(opt_view(f.scope), "i.scope = ?"@),
        );
        assert(where_clauses(f).take(c.len() as int) =~= c);
        lemma_filter_binds(f, c, a, "i.knowledge_type = ?"@, 19, v@);
    }
}

#[verifier::spinoff_prover]
proof fn lemma_binds_domain(f: ListFilters)
    ensures
        f.domain matches Some(v) ==> clause_binds(list_sql(f), list_args(f), "i.domain = ?"@, 11, v@),
{
    lemma_list_parts(f);
    if let Some(v) = f.domain {
        let c1 = opt_clause(opt_view(f.q), "items_fts MATCH ?"@);
        let c2 = opt_clause(opt_view(f.scope), "i.scope = ?"@);
        let c3 = opt_clause(opt_view(f.knowledge_type), "i.knowledge_type = ?"@);
        let a = opt_arg(opt_view(f.q)) + opt_arg(opt_view(f.scope)) + opt_arg(
            opt_view(f.knowledge_type),
        );
        lemma_count_q_all_concat(c1, c2);
        lemma_count_q_all_concat(c1 + c2, c3);
        assert(where_clauses(f).take((c1 + c2 + c3).len() as int) =~= c1 + c2 + c3);
        lemma_filter_binds(f, c1 + c2 + c3, a, "i.domain = ?"@, 11, v@);
    }
}

#[verifier::spinoff_prover]
proof fn lemma_binds_tag(f: ListFilters)
    ensures
        f.tag matches Some(v) ==> clause_binds(list_sql(f), list_args(f), tag_clause(), 68, v@),
{
    lemma_list_parts(f);
    if let Some(v) = f.tag {
        let c1 = opt_clause(opt_view(f.q), "items_fts MATCH ?"@);
        let c2 = opt_clause(opt_view(f.scope), "i.scope = ?"@);
        let c3 = opt_clause(opt_view(f.knowledge_type), "i.knowledge_type = ?"@);
        let c4 = opt_clause(opt_view(f.domain), "i.domain = ?"@);
        let a = opt_arg(opt_view(f.q)) + opt_arg(opt_view(f.scope)) + opt_arg(
            opt_view(f.knowledge_type),
        ) + opt_arg(opt_view(f.domain));
        lemma_count_q_all_concat(c1, c2);
        lemma_count_q_all_concat(c1 + c2, c3);
        lemma_count_q_all_concat(c1 + c2 + c3, c4);
        assert(where_clauses(f).take((c1 + c2 + c3 + c4).len() as int) =~= c1 + c2 + c3 + c4);
        lemma_filter_binds(f, c1 + c2 + c3 + c4, a, tag_clause(), 68, v@);
    }
}

#[verifier::spinoff_prover]
#[verifier::rlimit(60)]
proof fn lemma_binds_status(f: ListFilters, k: int)
    requires
        0 <= k < f.include_status.len(),
    ensures
        clause_binds(
            list_sql(f),
            list_args(f),
            "i.status IN ("@ + placeholders(f.include_status.len() as nat) + seq![')'],
            13 + 3 * k,
            f.include_status@[k]@,
        ),
{
    reveal_strlit("i.status IN (");
    lemma_list_parts(f);
    let n = f.include_status.len() as nat;
    let st = strings_view(f.include_status@);
    let clause = "i.status IN ("@ + placeholders(n) + seq![')'];
    lemma_placeholder_at(n, k as nat);
    assert("i.status IN ("@.len() == 13);
    lemma_count_q_none("i.status IN ("@);
    assert(status_clause(st) == clause);
    let c1 = opt_clause(opt_view(f.q), "items_fts MATCH ?"@);
    let c2 = opt_clause(opt_view(f.scope), "i.scope = ?"@);
    let c3 = opt_clause(opt_view(f.knowledge_type), "i.knowledge_type = ?"@);
    let c4 = opt_clause(opt_view(f.domain), "i.domain = ?"@);
    let c5 = opt_clause(opt_view(f.tag), tag_clause());
    let a = opt_arg(opt_view(f.q)) + opt_arg(opt_view(f.scope)) + opt_arg(
        opt_view(f.knowledge_type),
    ) + opt_arg(opt_view(f.domain)) + opt_arg(opt_view(f.tag));
    lemma_count_q_all_concat(c1, c2);
    lemma_count_q_all_concat(c1 + c2, c3);
    lemma_count_q_all_concat(c1 + c2 + c3, c4);
    lemma_count_q_all_concat(c1 + c2 + c3 + c4, c5);
    let pre = c1 + c2 + c3 + c4 + c5;
    let j = pre.len() as int;
    assert(where_clauses(f).take(j) =~= pre);
    assert(where_clauses(f)[j] == clause);
    assert(clause[13 + 3 * k] == placeholders(n)[3 * k]);
    assert(clause.take(13 + 3 * k) =~= "i.status IN ("@ + placeholders(n).take(3 * k));
    lemma_count_q_concat("i.status IN ("@, placeholders(n).take(3 * k));
    assert(list_args(f)[a.len() + k] == st[k]);
    lemma_clause_binds(f, j, clause, 13 + 3 * k, k as nat, a.len() + k, f.include_status@[k]@);
}

/// The shape of a listing statement: with a full-text query it joins the
/// full-text table and orders by rank, else it orders by modification time,
/// newest first; a limit and an offset are written when given; with no
/// status listed, deleted items are left out.
#[verifier::spinoff_prover]
pub proof fn lemma_list_query_shape(f: ListFilters)
    ensures
        f.q is Some ==> exists|p: int| #[trigger] clause_at(
            list_sql(f),
            " JOIN items_fts ON items_fts.id = i.id "@,
            p,
        ),
        f.q is Some ==> exists|p: int| #[trigger] clause_at(list_sql(f), " ORDER BY rank"@, p),
        f.q is None ==> exists|p: int| #[trigger] clause_at(
            list_sql(f),
            " ORDER BY i.modified DESC"@,
            p,
        ),
        f.limit matches Some(l) ==> exists|p: int| #[trigger] clause_at(
            list_sql(f),
            " LIMIT "@ + int_decimal(l as int),
            p,
        ),
        f.offset matches Some(o) ==> exists|p: int| #[trigger] clause_at(
            list_sql(f),
            " OFFSET "@ + int_decimal(o as int),
            p,
        ),
        f.include_status.len() == 0 ==> exists|p: int| #[trigger] clause_at(
            list_sql(f),
            "i.status != 'deleted'"@,
            p,
        ),
{
    let sql = list_sql(f);
    let join_part = if f.q is Some {
        " JOIN items_fts ON items_fts.id = i.id "@
    } else {
        Seq::<char>::empty()
    };
    let order = if f.q is Some {
        " ORDER BY rank"@
    } else {
        " ORDER BY i.modified DESC"@
    };
    let lim = match f.limit {
        Some(l) => " LIMIT "@ + int_decimal(l as int),
        None => Seq::<char>::empty(),
    };
    let off = match f.offset {
        Some(o) => " OFFSET "@ + int_decimal(o as int),
        None => Seq::<char>::empty(),
    };
    let ws = where_clauses(f);
    let w = join(ws, " AND "@);
    let a = select_items();
    assert(sql =~= a + join_part + " WHERE "@ + w + order + lim + off);
    let p_join = a.len() as int;
    assert(sql.subrange(p_join, p_join + join_part.len()) =~= join_part);
    let p_order = (a + join_part + " WHERE "@ + w).len() as int;
    assert(sql.subrange(p_order, p_order + order.len()) =~= order);
    let p_lim = p_order + order.len();
    assert(sql.subrange(p_lim, p_lim + lim.len()) =~= lim);
    let p_off = p_lim + lim.len();
    assert(sql.subrange(p_off, p_off + off.len()) =~= off);
    if f.q is Some {
        assert(clause_at(sql, join_part, p_join));
        assert(clause_at(sql, order, p_order));
    } else {
        assert(clause_at(sql, order, p_order));
    }
    if f.limit is Some {
        assert(clause_at(sql, lim, p_lim));
    }
    if f.offset is Some {
        assert(clause_at(sql, off, p_off));
    }
    lemma_shape_status(f);
}

#[verifier::spinoff_prover]
proof fn lemma_shape_status(f: ListFilters)
    ensures
        f.include_status.len() == 0 ==> exists|p: int| #[trigger] clause_at(
            list_sql(f),
            "i.status != 'deleted'"@,
            p,
        ),
{
    if f.include_status.len() == 0 {
        let sql = list_sql(f);
        let ws = where_clauses(f);
        let parts = lemma_sql_parts(f);
        let j = ws.len() - 1;
        let rest = lemma_join_at(ws, " AND "@, j);
        let st = strings_view(f.include_status@);
        assert(ws[j] == status_clause(st));
        let before = parts.0 + join_before(ws, j, " AND "@);
        let cl = "i.status != 'deleted'"@;
        assert(sql =~= before + cl + (rest + parts.1));
        let p = before.len() as int;
        assert(sql.subrange(p, p + cl.len()) =~= cl);
        assert(clause_at(sql, cl, p));
    }
}

/// Every placeholder of a listing is bound to the value of the filter whose
/// condition holds it: the full-text query to `items_fts MATCH ?`, the
/// scope to `i.scope = ?`, the type to `i.knowledge_type = ?`, the domain
/// to `i.domain = ?`, the tag to the tag condition's `?`, and the `k`-th
/// listed status to the `k`-th `?` of `i.status IN (..)`.
pub proof fn lemma_list_query_binds(f: ListFilters)
    ensures
        f.q matches Some(v) ==> clause_binds(
            list_sql(f),
            list_args(f),
            "items_fts MATCH ?"@,
            16,
            v@,
        ),
        f.scope matches Some(v) ==> clause_binds(list_sql(f), list_args(f), "i.scope = ?"@, 10, v@),
        f.knowledge_type matches Some(v) ==> clause_binds(
            list_sql(f),
            list_args(f),
            "i.knowledge_type = ?"@,
            19,
            v@,
        ),
        f.domain matches Some(v) ==> clause_binds(list_sql(f), list_args(f), "i.domain = ?"@, 11, v@),
        f.tag matches Some(v) ==> clause_binds(list_sql(f), list_args(f), tag_clause(), 68, v@),
        forall|k: int|
            0 <= k < f.include_status.len() ==> clause_binds(
                list_sql(f),
                list_args(f),
                "i.status IN ("@ + placeholders(f.include_status.len() as nat) + seq![')'],
                13 + 3 * k,
                (#[trigger] f.include_status@[k])@,
            ),
{
    lemma_binds_q(f);
    lemma_binds_scope(f);
    lemma_binds_type(f);
    lemma_binds_domain(f);
    lemma_binds_tag(f);
    assert forall|k: int| 0 <= k < f.include_status.len() implies clause_binds(
        list_sql(f),
        list_args(f),
        "i.status IN ("@ + placeholders(f.include_status.len() as nat) + seq![')'],
        13 + 3 * k,
        (#[trigger] f.include_status@[k])@,
    ) by {
        lemma_binds_status(f, k);
    }
}

// ---------------------------------------------------------------------------
// Content hash and tags column
// ---------------------------------------------------------------------------
/// The lower-case hex SHA-256 of a text's UTF-8 bytes.
pub uninterp spec fn sha256_hex(text: Seq<char>) -> Seq<char>;

/// `format!("{:x}", Sha256::digest(text))`: 64 lower-case hex digits.
#[verifier::external_body]
pub(crate) fn content_hash(text: &str) -> (r: String)
    ensures
        r@ == sha256_hex(text@),
        r@.len() == 64,
        forall|i: int| 0 <= i < 64 ==> ('0' <= #[trigger] r@[i] <= '9') || ('a' <= r@[i] <= 'f'),
{
    let mut h = Sha256::new();
    h.update(text.as_bytes());
    format!("{:x}", h.finalize())
}

/// The tags column: tags joined by spaces.
pub fn tags_concat(tags: &Vec<String>) -> (r: String)
    ensures
        r@ == join(strings_view(tags@), seq![' ']),
{
    let sp = " ";
    proof {
        reveal_strlit(" ");
        assert(sp@ =~= seq![' ']);
    }
    join_strings(tags, sp)
}

/// The tags of a tags column: its words.
pub fn tags_from_concat(concat: &str) -> (r: Vec<String>)
    ensures
        strings_view(r@) == words(concat@),
{
    let cs = char_vec(concat);
    split_whitespace(&cs)
}

// ---------------------------------------------------------------------------
// Item rows
// ---------------------------------------------------------------------------
/// The columns of an item's row in the index. Relations are stored beside
/// them as JSON, and the confidence as a number, by the caller.
#[derive(Debug)]
pub struct ItemRow {
    pub id: String,
    pub file_path: String,
    pub file_offset: i64,
    pub knowledge_type: String,
    pub scope: String,
    pub confidence: String,
    pub source_type: String,
    pub status: String,
    pub stability: String,
    pub created: String,
    pub modified: String,
    pub valid_from: Option<String>,
    pub valid_until: Option<String>,
    pub domain: Option<String>,
    pub title: String,
    pub body_text: String,
    pub body_html: String,
    pub tags_concat: String,
    pub claim_key: Option<String>,
    pub content_hash: String,
}

/// An optional instant as its column holds it: RFC 3339, absent when there
/// is none or it cannot be written.
pub open spec fn instant_column(t: Option<Timestamp>) -> Option<Seq<char>> {
    match t {
        Some(t) => rfc3339_format(t),
        None => None,
    }
}

/// The row written for an item found in `file_path`.
pub open spec fn row_written(
    item: KnowledgeRecord,
    file_path: Seq<char>,
    file_offset: i64,
    row: ItemRow,
) -> bool {
    &&& row.id@ == item.id@
    &&& row.file_path@ == file_path
    &&& row.file_offset == file_offset
    &&& row.knowledge_type@ == item.knowledge_type.name()
    &&& row.scope@ == item.scope.name()
    &&& row.confidence@ == item.confidence@
    &&& row.source_type@ == item.source_type.name()
    &&& row.status@ == item.status.name()
    &&& row.stability@ == item.stability.name()
    &&& row.created@ == rfc3339_text(item.created)
    &&& row.modified@ == rfc3339_text(item.modified)
    &&& opt_view(row.valid_from) == instant_column(item.valid_from)
    &&& opt_view(row.valid_until) == instant_column(item.valid_until)
    &&& opt_view(row.domain) == opt_view(item.domain)
    &&& row.title@ == item.title@
    &&& row.body_text@ == item.body_text@
    &&& row.body_html@ == item.body_html@
    &&& row.tags_concat@ == join(strings_view(item.tags@), seq![' '])
    &&& opt_view(row.claim_key) == Some(item.claim_key_spec())
    &&& row.content_hash@ == sha256_hex(item.body_text@)
}

fn copy_opt(o: &Option<String>) -> (r: Option<String>)
    ensures
        opt_view(r) == opt_view(*o),
{
    match o {
        Some(s) => Some(to_owned_string(s.as_str())),
        None => None,
    }
}

fn instant_text(t: &Option<Timestamp>) -> (r: Option<String>)
    ensures
        opt_view(r) == instant_column(*t),
{
    match t {
        Some(t) => format_rfc3339(t),
        None => None,
    }
}

/// The row an item is stored as (its claim key derived, its body hashed).
pub fn item_row(item: &KnowledgeRecord, file_path: &str, file_offset: i64) -> (r: ItemRow)
    ensures
        row_written(*item, file_path@, file_offset, r),
{
    ItemRow {
        id: to_owned_string(item.id.as_str()),
        file_path: to_owned_string(file_path),
        file_offset,
        knowledge_type: to_owned_string(item.knowledge_type.as_str()),
        scope: to_owned_string(item.scope.as_str()),
        confidence: to_owned_string(item.confidence.as_str()),
        source_type: to_owned_string(item.source_type.as_str()),
        status: to_owned_string(item.status.as_str()),
        stability: to_owned_string(item.stability.as_str()),
        created: rfc3339_or_empty(&item.created),
        modified: rfc3339_or_empty(&item.modified),
        valid_from: instant_text(&item.valid_from),
        valid_until: instant_text(&item.valid_until),
        domain: copy_opt(&item.domain),
        title: to_owned_string(item.title.as_str()),
        body_text: to_owned_string(item.body_text.as_str()),
        body_html: to_owned_string(item.body_html.as_str()),
        tags_concat: tags_concat(&item.tags),
        claim_key: Some(item.derived_claim_key()),
        content_hash: content_hash(item.body_text.as_str()),
    }
}

// ---------------------------------------------------------------------------
// Skipping unchanged files
// ---------------------------------------------------------------------------
/// The `(id, content hash)` pairs as plain text.
pub open spec fn hash_pairs(v: Seq<(String, String)>) -> Seq<(Seq<char>, Seq<char>)> {
    v.map_values(|p: (String, String)| (p.0@, p.1@))
}

/// What the index keeps of a record to tell whether it changed: its id and
/// the hash of its body text, as its row holds them.
pub open spec fn section_key(item: KnowledgeRecord) -> (Seq<char>, Seq<char>) {
    (item.id@, sha256_hex(item.body_text@))
}

/// The index holds exactly these sections: as many pairs on either side,
/// and each pair of either side among the other's.
pub open spec fn same_sections(
    stored: Seq<(Seq<char>, Seq<char>)>,
    current: Seq<(Seq<char>, Seq<char>)>,
) -> bool {
    &&& stored.len() == current.len()
    &&& forall|i: int| 0 <= i < current.len() ==> stored.contains(#[trigger] current[i])
    &&& forall|i: int| 0 <= i < stored.len() ==> current.contains(#[trigger] stored[i])
}

/// The `(id, content hash)` pair of each record, in order, as `item_row`
/// stores them.
pub fn section_hashes(items: &Vec<KnowledgeRecord>) -> (r: Vec<(String, String)>)
    ensures
        hash_pairs(r@) == items@.map_values(|it: KnowledgeRecord| section_key(it)),
{
    let mut r: Vec<(String, String)> = Vec::new();
    let mut i: usize = 0;
    while i < items.len()
        invariant
            i <= items.len(),
            hash_pairs(r@) == items@.take(i as int).map_values(|it: KnowledgeRecord| section_key(it)),
        decreases items.len() - i,
    {
        let it = &items[i];
        let pair = (to_owned_string(it.id.as_str()), content_hash(it.body_text.as_str()));
        let ghost before = r@;
        r.push(pair);
        assert(items@.take(i + 1) =~= items@.take(i as int).push(items@[i as int]));
        assert(hash_pairs(r@) =~= hash_pairs(before).push(section_key(items@[i as int])));
        i += 1;
    }
    assert(items@.take(items.len() as int) =~= items@);
    r
}

/// The `(id, content hash)` pairs of stored rows, as the index lists them
/// for a file.
pub open spec fn row_pairs(rows: Seq<ItemRow>) -> Seq<(Seq<char>, Seq<char>)> {
    rows.map_values(|r: ItemRow| (r.id@, r.content_hash@))
}

/// The rows written for a file's items are exactly the file's section
/// pairs: reindexing a file whose items were just written finds it
/// unchanged.
pub proof fn lemma_written_rows_unchanged(
    items: Seq<KnowledgeRecord>,
    rows: Seq<ItemRow>,
    file_path: Seq<char>,
)
    requires
        rows.len() == items.len(),
        forall|i: int|
            0 <= i < rows.len() ==> row_written(items[i], file_path, (#[trigger] rows[i]).file_offset, rows[i]),
    ensures
        same_sections(row_pairs(rows), items.map_values(|it: KnowledgeRecord| section_key(it))),
{
    let a = row_pairs(rows);
    let b = items.map_values(|it: KnowledgeRecord| section_key(it));
    assert forall|i: int| 0 <= i < a.len() implies #[trigger] a[i] == b[i] by {
        assert(row_written(items[i], file_path, rows[i].file_offset, rows[i]));
    }
    assert(a =~= b);
    assert forall|i: int| 0 <= i < b.len() implies a.contains(#[trigger] b[i]) by {
        assert(a[i] == b[i]);
    }
    assert forall|i: int| 0 <= i < a.len() implies b.contains(#[trigger] a[i]) by {
        assert(b[i] == a[i]);
    }
}

/// A file is unchanged exactly when the index holds the same set of
/// `(id, content hash)` pairs for it as the file has, and as many: a
/// section added, removed, renamed or edited makes it changed.
pub proof fn lemma_same_sections_sets(
    stored: Seq<(Seq<char>, Seq<char>)>,
    current: Seq<(Seq<char>, Seq<char>)>,
)
    ensures
        same_sections(stored, current) <==> (stored.to_set() == current.to_set() && stored.len()
            == current.len()),
        same_sections(stored, current) ==> forall|x: (Seq<char>, Seq<char>)|
            stored.contains(x) <==> current.contains(x),
{
    if same_sections(stored, current) {
        assert forall|x: (Seq<char>, Seq<char>)| stored.contains(x) implies current.contains(x) by {
            let i = choose|i: int| 0 <= i < stored.len() && stored[i] == x;
            assert(current.contains(stored[i]));
        }
        assert forall|x: (Seq<char>, Seq<char>)| current.contains(x) implies stored.contains(x) by {
            let i = choose|i: int| 0 <= i < current.len() && current[i] == x;
            assert(stored.contains(current[i]));
        }
        assert(stored.to_set() =~= current.to_set());
    }
    if stored.to_set() == current.to_set() && stored.len() == current.len() {
        assert forall|i: int| 0 <= i < current.len() implies stored.contains(#[trigger] current[i]) by {
            assert(current.to_set().contains(current[i]));
            assert(stored.to_set().contains(current[i]));
        }
        assert forall|i: int| 0 <= i < stored.len() implies current.contains(#[trigger] stored[i]) by {
            assert(stored.to_set().contains(stored[i]));
            assert(current.to_set().contains(stored[i]));
        }
    }
}

/// Whether `pair` occurs in `pairs`.
fn has_pair(pairs: &Vec<(String, String)>, pair: &(String, String)) -> (r: bool)
    ensures
        r == hash_pairs(pairs@).contains((pair.0@, pair.1@)),
{
    let mut i: usize = 0;
    while i < pairs.len()
        invariant
            i <= pairs.len(),
            forall|j: int| 0 <= j < i ==> #[trigger] hash_pairs(pairs@)[j] != (pair.0@, pair.1@),
        decreases pairs.len() - i,
    {
        if str_eq(pairs[i].0.as_str(), pair.0.as_str()) && str_eq(pairs[i].1.as_str(), pair.1.as_str()) {
            assert(hash_pairs(pairs@)[i as int] == (pair.0@, pair.1@));
            return true;
        }
        assert(hash_pairs(pairs@)[i as int] != (pair.0@, pair.1@));
        i += 1;
    }
    false
}

/// Whether every pair of `a` occurs in `b`.
fn all_present(a: &Vec<(String, String)>, b: &Vec<(String, String)>) -> (r: bool)
    ensures
        r == forall|i: int| 0 <= i < a@.len() ==> hash_pairs(b@).contains(#[trigger] hash_pairs(a@)[i]),
{
    let mut i: usize = 0;
    while i < a.len()
        invariant
            i <= a.len(),
            forall|j: int| 0 <= j < i ==> hash_pairs(b@).contains(#[trigger] hash_pairs(a@)[j]),
        decreases a.len() - i,
    {
        if !has_pair(b, &a[i]) {
            assert(!hash_pairs(b@).contains(hash_pairs(a@)[i as int]));
            return false;
        }
        i += 1;
    }
    true
}

/// Whether a file can be skipped: the index holds for it exactly the
/// `(id, content hash)` pairs of its sections (`stored` as the index lists
/// them, `current` as `section_hashes` gives them).
pub fn file_unchanged(stored: &Vec<(String, String)>, current: &Vec<(String, String)>) -> (r: bool)
    ensures
        r == same_sections(hash_pairs(stored@), hash_pairs(current@)),
        r <==> (hash_pairs(stored@).to_set() == hash_pairs(current@).to_set() && stored@.len()
            == current@.len()),
{
    proof {
        lemma_same_sections_sets(hash_pairs(stored@), hash_pairs(current@));
    }
    if stored.len() != current.len() {
        return false;
    }
    let a = all_present(current, stored);
    let b = all_present(stored, current);
    a && b
}

/// An instant read from its column; `now` where it cannot be read.
pub open spec fn instant_or(s: Seq<char>, now: Timestamp) -> Timestamp {
    match rfc3339_parse(s) {
        Some(t) => t,
        None => now,
    }
}

/// An optional instant read from its column.
pub open spec fn optional_instant(s: Option<Seq<char>>) -> Option<Timestamp> {
    match s {
        Some(s) => rfc3339_parse(s),
        None => None,
    }
}

/// The item read back from a row and its relations: names read leniently,
/// unreadable creation or modification instants taken as `now`, tags split
/// on whitespace, and no source location.
pub open spec fn row_read(
    row: ItemRow,
    relations: Seq<Relation>,
    now: Timestamp,
    item: KnowledgeRecord,
) -> bool {
    &&& item.id@ == row.id@
    &&& item.knowledge_type == KnowledgeType::from_name(normalized(row.knowledge_type@))
    &&& item.scope == Scope::from_name(normalized(row.scope@))
    &&& item.confidence@ == row.confidence@
    &&& item.source_type == SourceType::from_name(normalized(row.source_type@))
    &&& item.status == Status::from_name(normalized(row.status@))
    &&& item.stability == Stability::from_name(normalized(row.stability@))
    &&& item.created == instant_or(row.created@, now)
    &&& item.modified == instant_or(row.modified@, now)
    &&& item.valid_from == optional_instant(opt_view(row.valid_from))
    &&& item.valid_until == optional_instant(opt_view(row.valid_until))
    &&& opt_view(item.domain) == opt_view(row.domain)
    &&& strings_view(item.tags@) == words(row.tags_concat@)
    &&& item.title@ == row.title@
    &&& item.body_text@ == row.body_text@
    &&& item.body_html@ == row.body_html@
    &&& item.relations@ == relations
    &&& opt_view(item.claim_key) == opt_view(row.claim_key)
    &&& item.defined_path is None
    &&& item.defined_start_line is None
    &&& item.defined_end_line is None
}

fn read_instant(s: &Option<String>) -> (r: Option<Timestamp>)
    ensures
        r == optional_instant(opt_view(*s)),
{
    match s {
        Some(s) => parse_rfc3339(s.as_str()),
        None => None,
    }
}

/// The item a stored row describes.
pub fn item_from_row(row: &ItemRow, relations: Vec<Relation>, now: Timestamp) -> (item: KnowledgeRecord)
    ensures
        row_read(*row, relations@, now, item),
{
    let created = match parse_rfc3339(row.created.as_str()) {
        Some(t) => t,
        None => now,
    };
    let modified = match parse_rfc3339(row.modified.as_str()) {
        Some(t) => t,
        None => now,
    };
    KnowledgeRecord {
        id: to_owned_string(row.id.as_str()),
        knowledge_type: KnowledgeType::parse(row.knowledge_type.as_str()),
        scope: Scope::parse(row.scope.as_str()),
        confidence: to_owned_string(row.confidence.as_str()),
        source_type: SourceType::parse(row.source_type.as_str()),
        status: Status::parse(row.status.as_str()),
        stability: Stability::parse(row.stability.as_str()),
        created,
        modified,
        valid_from: read_instant(&row.valid_from),
        valid_until: read_instant(&row.valid_until),
        domain: copy_opt(&row.domain),
        tags: tags_from_concat(row.tags_concat.as_str()),
        title: to_owned_string(row.title.as_str()),
        body_text: to_owned_string(row.body_text.as_str()),
        body_html: to_owned_string(row.body_html.as_str()),
        relations,
        claim_key: copy_opt(&row.claim_key),
        defined_path: None,
        defined_start_line: None,
        defined_end_line: None,
    }
}

/// Reading back a stored item gives the item: its id, vocabulary,
/// confidence, instants, domain, tags, title, bodies and relations, with its
/// claim key now explicit. This holds where each tag is a non-empty word
/// without whitespace and each instant reads back from its RFC 3339 text.
pub proof fn lemma_row_round_trip(
    item: KnowledgeRecord,
    file_path: Seq<char>,
    file_offset: i64,
    row: ItemRow,
    now: Timestamp,
    back: KnowledgeRecord,
)
    requires
        forall|k: int| 0 <= k < item.tags@.len() ==> (#[trigger] item.tags@[k])@.len() > 0,
        forall|k: int, j: int|
            0 <= k < item.tags@.len() && 0 <= j < item.tags@[k]@.len() ==> !is_space(
                #[trigger] item.tags@[k]@[j],
            ),
        instant_round_trips(item.created),
        instant_round_trips(item.modified),
        item.valid_from matches Some(t) ==> instant_round_trips(t),
        item.valid_until matches Some(t) ==> instant_round_trips(t),
        row_written(item, file_path, file_offset, row),
        row_read(row, item.relations@, now, back),
    ensures
        back.id@ == item.id@,
        back.knowledge_type == item.knowledge_type,
        back.scope == item.scope,
        back.confidence@ == item.confidence@,
        back.source_type == item.source_type,
        back.status == item.status,
        back.stability == item.stability,
        back.created == item.created,
        back.modified == item.modified,
        back.valid_from == item.valid_from,
        back.valid_until == item.valid_until,
        opt_view(back.domain) == opt_view(item.domain),
        strings_view(back.tags@) == strings_view(item.tags@),
        back.title@ == item.title@,
        back.body_text@ == item.body_text@,
        back.body_html@ == item.body_html@,
        back.relations@ == item.relations@,
        opt_view(back.claim_key) == Some(item.claim_key_spec()),
{
    crate::schema::lemma_knowledge_type_round_trip(item.knowledge_type);
    crate::schema::lemma_scope_round_trip(item.scope);
    crate::schema::lemma_source_type_round_trip(item.source_type);
    crate::schema::lemma_status_round_trip(item.status);
    crate::schema::lemma_stability_round_trip(item.stability);
    let ws = strings_view(item.tags@);
    assert forall|k: int| 0 <= k < ws.len() implies (#[trigger] ws[k]).len() > 0 by {
        assert(ws[k] == item.tags@[k]@);
    }
    assert forall|k: int, j: int| 0 <= k < ws.len() && 0 <= j < ws[k].len() implies !is_space(
        #[trigger] ws[k][j],
    ) by {
        assert(ws[k] == item.tags@[k]@);
        assert(!is_space(item.tags@[k]@[j]));
    }
    lemma_words_join(ws);
}

} // verus!
