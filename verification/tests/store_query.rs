use ctxk::clock::Timestamp;
use ctxk::query::{
    extra_ids, filter_candidates, fts_query, in_scope_chain, included_statuses, passes_filters,
    pool_size, result_limit, sanitise_fts, scope_chain, Query,
};
use ctxk::schema::{KnowledgeRecord, KnowledgeType, Relation, Scope, SourceType, Stability, Status};
use ctxk::store::{
    build_list_query, graph_filters, item_from_row, item_row, list_filters,
    query_filters, tags_concat, tags_from_concat, ListFilters, ListParams,
};

const SELECT: &str = "SELECT i.id, i.knowledge_type, i.scope, i.confidence, i.source_type, i.status, i.stability,\n                i.created, i.modified, i.valid_from, i.valid_until, i.domain, i.title, i.body_text,\n                i.body_html, i.tags_concat, i.relations_json, i.claim_key\n         FROM items i";

fn at(secs: i64) -> Timestamp {
    Timestamp { unix_seconds: secs, nanosecond: 0, offset_seconds: 0 }
}

fn item(id: &str, scope: Scope, kt: KnowledgeType, domain: Option<&str>, tags: &[&str]) -> KnowledgeRecord {
    KnowledgeRecord {
        id: id.to_string(),
        knowledge_type: kt,
        scope,
        confidence: "0.500".to_string(),
        source_type: SourceType::User,
        status: Status::Active,
        stability: Stability::MediumTerm,
        created: at(1_704_067_200),
        modified: at(1_704_067_260),
        valid_from: Some(at(1_704_153_600)),
        valid_until: None,
        domain: domain.map(|d| d.to_string()),
        tags: tags.iter().map(|t| t.to_string()).collect(),
        title: "Use meters".to_string(),
        body_text: "All grids in m.".to_string(),
        body_html: "<p>All grids in m.</p>".to_string(),
        relations: vec![Relation { rel: "cites".to_string(), target: "01X".to_string() }],
        claim_key: None,
        defined_path: None,
        defined_start_line: None,
        defined_end_line: None,
    }
}

#[test]
fn scope_chains_widen_outwards() {
    assert_eq!(
        scope_chain(Scope::Project),
        vec![Scope::Project, Scope::User, Scope::Workspace, Scope::Organization, Scope::Global]
    );
    assert_eq!(scope_chain(Scope::Global), vec![Scope::Global]);
    assert_eq!(scope_chain(Scope::Session).len(), 6);
    assert!(in_scope_chain(Scope::Global, &Some("user".to_string())));
    assert!(!in_scope_chain(Scope::Session, &Some("user".to_string())));
    assert!(in_scope_chain(Scope::Session, &None));
}

#[test]
fn full_text_query_text() {
    assert_eq!(sanitise_fts("grid units, meters!"), "\"grid\" OR \"units\" OR \"meters\"");
    assert_eq!(sanitise_fts("a-b  ** c"), "\"a-b\" OR \"c\"");
    assert_eq!(sanitise_fts("receptor grid units"), "\"receptor\" OR \"grid\" OR \"units\"");
    assert_eq!(sanitise_fts("a.b c* x-y"), "\"ab\" OR \"c\" OR \"x-y\"");
    assert_eq!(sanitise_fts("!! ?"), "");
    assert_eq!(fts_query("   "), None);
    assert_eq!(fts_query("x y").as_deref(), Some("\"x\" OR \"y\""));
}

#[test]
fn statuses_and_sizes() {
    assert_eq!(included_statuses(false), vec!["active"]);
    assert_eq!(included_statuses(true), vec!["active", "stale", "superseded"]);
    assert_eq!(pool_size(0), 5);
    assert_eq!(pool_size(12), 60);
    assert_eq!(pool_size(100), 200);
    assert_eq!(result_limit(0), 1);
    assert_eq!(result_limit(7), 7);
    let q = Query::default();
    assert_eq!(q.max_items, 12);
    assert!(q.include_conflicts);
    assert!(!q.include_stale);
    assert_eq!(q.task, "");
}

#[test]
fn filters_by_type_domain_and_tags() {
    let mut q = Query::default();
    q.scope = Some("project".to_string());
    q.knowledge_types = Some(vec!["constraint".to_string()]);
    q.domains = Some(vec!["aermod".to_string()]);
    q.tags_any = Some(vec!["grid".to_string(), "zzz".to_string()]);
    let a = item("A", Scope::Project, KnowledgeType::Constraint, Some("aermod"), &["grid"]);
    let b = item("B", Scope::Session, KnowledgeType::Constraint, Some("aermod"), &["grid"]);
    let c = item("C", Scope::Global, KnowledgeType::Fact, Some("aermod"), &["grid"]);
    let d = item("D", Scope::User, KnowledgeType::Constraint, None, &["grid"]);
    let e = item("E", Scope::User, KnowledgeType::Constraint, Some("aermod"), &["units"]);
    let f = item("F", Scope::Global, KnowledgeType::Constraint, Some("aermod"), &["zzz"]);
    assert!(passes_filters(&q, a.scope, a.knowledge_type, &a.domain, &a.tags));
    assert!(!passes_filters(&q, b.scope, b.knowledge_type, &b.domain, &b.tags));
    let kept = filter_candidates(vec![a, b, c, d, e, f], &q);
    let ids: Vec<&str> = kept.iter().map(|i| i.id.as_str()).collect();
    assert_eq!(ids, vec!["A", "F"]);
    q.knowledge_types = Some(vec![]);
    assert!(passes_filters(&q, Scope::User, KnowledgeType::Fact, &Some("aermod".to_string()), &vec!["grid".to_string()]));
}

#[test]
fn semantic_extras_are_those_not_pooled() {
    let pool = vec![item("A", Scope::User, KnowledgeType::Fact, None, &[])];
    let sem = vec!["B".to_string(), "A".to_string(), "C".to_string()];
    assert_eq!(extra_ids(&sem, &pool), vec!["B".to_string(), "C".to_string()]);
}

#[test]
fn list_statement_exact() {
    let f = ListFilters {
        scope: None,
        knowledge_type: None,
        domain: None,
        tag: None,
        q: None,
        include_status: vec![],
        limit: None,
        offset: None,
    };
    let (sql, args) = build_list_query(&f);
    assert_eq!(sql, format!("{} WHERE i.status != 'deleted' ORDER BY i.modified DESC", SELECT));
    assert!(args.is_empty());

    let f = list_filters(ListParams {
        scope: Some("user".to_string()),
        knowledge_type: None,
        domain: Some("d".to_string()),
        tag: Some("t".to_string()),
        q: Some("\"x\"".to_string()),
        include_stale: true,
        limit: None,
        offset: Some(-3),
    });
    let (sql, args) = build_list_query(&f);
    assert_eq!(
        sql,
        format!(
            "{} JOIN items_fts ON items_fts.id = i.id  WHERE items_fts MATCH ? AND i.scope = ? AND i.domain = ? AND EXISTS (SELECT 1 FROM tags WHERE tags.item_id = i.id AND tags.tag = ?) AND i.status IN (?, ?, ?) ORDER BY rank LIMIT 100 OFFSET -3",
            SELECT
        )
    );
    assert_eq!(args, vec!["\"x\"", "user", "d", "t", "active", "stale", "superseded"]);
    assert_eq!(sql.matches('?').count(), args.len());

    let g = graph_filters();
    assert_eq!(g.limit, Some(5000));
    assert_eq!(g.include_status, vec!["active"]);
    let mut q = Query::default();
    q.task = "grid".to_string();
    let qf = query_filters(&q);
    assert_eq!(qf.q.as_deref(), Some("\"grid\""));
    assert_eq!(qf.limit, Some(60));
}

#[test]
fn hashes_and_tags_column() {
    let mut it = item("H", Scope::User, KnowledgeType::Fact, None, &[]);
    it.body_text = String::new();
    assert_eq!(item_row(&it, "f", 0).content_hash, "e3b0c44298fc1c149afbf4c8996fb92427ae41e4649b934ca495991b7852b855");
    it.body_text = "abc".to_string();
    assert_eq!(item_row(&it, "f", 0).content_hash, "ba7816bf8f01cfea414140de5dae2223b00361a396177a9cb410ff61f20015ad");
    let tags = vec!["a".to_string(), "b c".to_string()];
    assert_eq!(tags_concat(&tags), "a b c");
    assert_eq!(tags_from_concat("  a  b\tc "), vec!["a", "b", "c"]);
    assert!(tags_from_concat("   ").is_empty());
}

#[test]
fn stored_row_reads_back() {
    let it = item("01ROW", Scope::Project, KnowledgeType::Formula, Some("aermod"), &["grid", "units"]);
    let row = item_row(&it, "projects/a.html", 7);
    assert_eq!(row.file_path, "projects/a.html");
    assert_eq!(row.file_offset, 7);
    assert_eq!(row.knowledge_type, "formula");
    assert_eq!(row.created, "2024-01-01T00:00:00Z");
    assert_eq!(row.valid_from.as_deref(), Some("2024-01-02T00:00:00Z"));
    assert_eq!(row.valid_until, None);
    assert_eq!(row.tags_concat, "grid units");
    assert_eq!(row.claim_key.as_deref(), Some("use-meters:aermod"));
    assert_eq!(row.content_hash.len(), 64);
    let back = item_from_row(&row, it.relations.clone(), at(0));
    assert_eq!(back.id, it.id);
    assert_eq!(back.knowledge_type, it.knowledge_type);
    assert_eq!(back.scope, it.scope);
    assert_eq!(back.created, it.created);
    assert_eq!(back.modified, it.modified);
    assert_eq!(back.valid_from, it.valid_from);
    assert_eq!(back.tags, it.tags);
    assert_eq!(back.domain, it.domain);
    assert_eq!(back.relations.len(), 1);
    assert_eq!(back.claim_key.as_deref(), Some("use-meters:aermod"));
    let mut bad = item_row(&it, "x", 0);
    bad.created = "yesterday".to_string();
    bad.scope = " PROJECT ".to_string();
    bad.claim_key = None;
    let back = item_from_row(&bad, vec![], at(42));
    assert_eq!(back.created, at(42));
    assert_eq!(back.scope, Scope::Project);
    assert_eq!(back.claim_key, None);
}

#[test]
fn task_text_cannot_inject_query_syntax() {
    assert_eq!(
        sanitise_fts("title:foo NEAR(a b) \"x\" OR * -"),
        "\"titlefoo\" OR \"NEARa\" OR \"b\" OR \"x\" OR \"OR\" OR \"-\""
    );
}
