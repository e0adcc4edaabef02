use ctxk::bundle::{bundle_text, relation_views};
use ctxk::clock::{rfc3339_or_empty, Timestamp};
use ctxk::conflict::detect;
use ctxk::decimal::{i64_to_string, parse_usize_str, u64_to_string, usize_to_string};
use ctxk::embed::{Embedder, DEFAULT_DIM};
use ctxk::graph::graph_data;
use ctxk::html_emit::{escape_attr, line_range_string, push_attr};
use ctxk::ids::new_id;
use ctxk::lexical::{insert_sorted, str_lt};
use ctxk::rerank::{age_seconds, lexical_overlap_counts, tokenize};
use ctxk::review::{
    approval_file, check_approvable, check_target_path, check_proposed_by, check_update_target, default_target_for, empty_document_for, insert_before_body_close,
    item_from_payload, decided_by, strip_html, Proposal, ReviewError,
};
use ctxk::schema::{
    derived_claim_key, slugify, Error, KnowledgeRecord, KnowledgeType, Relation, Scope, SourceType,
    Stability, Status,
};
use ctxk::store::{file_unchanged, item_row, section_hashes, QueueEntry};
use ctxk::vault::{
    check_batch_len, embed_text_for, items_to_embed, model_changed, reindex_response, FileOutcome,
    ReindexReport, INDEX_FILENAME, SYSTEM_DIRNAME,
};

fn at(secs: i64) -> Timestamp {
    Timestamp { unix_seconds: secs, nanosecond: 0, offset_seconds: 0 }
}

fn rec(id: &str, scope: Scope, status: Status, title: &str, claim: Option<&str>) -> KnowledgeRecord {
    KnowledgeRecord {
        id: id.to_string(),
        knowledge_type: KnowledgeType::Fact,
        scope,
        confidence: "0.500".to_string(),
        source_type: SourceType::User,
        status,
        stability: Stability::MediumTerm,
        created: at(0),
        modified: at(0),
        valid_from: None,
        valid_until: Some(at(86_400)),
        domain: None,
        tags: vec!["t".to_string()],
        title: title.to_string(),
        body_text: "body".to_string(),
        body_html: "<p>body</p>".to_string(),
        relations: vec![Relation { rel: "cites".to_string(), target: "Z".to_string() }],
        claim_key: claim.map(|c| c.to_string()),
        defined_path: None,
        defined_start_line: None,
        defined_end_line: None,
    }
}

fn entry(id: &str, kind: &str, status: &str) -> QueueEntry {
    QueueEntry {
        id: id.to_string(),
        kind: kind.to_string(),
        target_id: None,
        proposed_by: "agent:x".to_string(),
        proposed_at: "2024-01-01T00:00:00Z".to_string(),
        status: status.to_string(),
        payload_json: "{}".to_string(),
        rationale: None,
    }
}

#[test]
fn vocabulary_round_trips() {
    for t in [KnowledgeType::Fact, KnowledgeType::Regulation, KnowledgeType::Other] {
        assert_eq!(KnowledgeType::parse(t.as_str()), t);
    }
    assert_eq!(KnowledgeType::parse("  Constraint "), KnowledgeType::Constraint);
    assert_eq!(KnowledgeType::parse("nonsense"), KnowledgeType::Other);
    assert_eq!(Scope::parse("ORGANIZATION"), Scope::Organization);
    assert_eq!(Scope::Session.as_str(), "session");
    assert_eq!(Status::parse(Status::Superseded.as_str()), Status::Superseded);
    assert_eq!(Stability::LongTerm.as_str(), "long-term");
    assert_eq!(Stability::parse("short-term"), Stability::ShortTerm);
    assert_eq!(SourceType::parse("cited"), SourceType::Cited);
    assert_eq!(SourceType::parse(" Code-Import "), SourceType::CodeImport);
    assert_eq!(SourceType::CodeImport.as_str(), "code-import");
    assert_eq!(SourceType::parse("import"), SourceType::Imported);
}

#[test]
fn slugs_and_claim_keys() {
    assert_eq!(slugify("  Use Meters, not feet!! "), "use-meters-not-feet");
    assert_eq!(slugify("---"), "");
    assert_eq!(slugify(&slugify("A b_C")), slugify("A b_C"));
    assert_eq!(derived_claim_key(&None, "Grid Size", &Some("aermod".to_string())), "grid-size:aermod");
    assert_eq!(derived_claim_key(&None, "Grid Size", &Some(String::new())), "grid-size");
    assert_eq!(derived_claim_key(&Some("k".to_string()), "Grid Size", &None), "k");
    assert_eq!(rec("A", Scope::User, Status::Active, "X y", None).derived_claim_key(), "x-y");
}

#[test]
fn numbers_as_text() {
    assert_eq!(usize_to_string(0), "0");
    assert_eq!(usize_to_string(1203), "1203");
    assert_eq!(u64_to_string(u64::MAX), "18446744073709551615");
    assert_eq!(i64_to_string(-42), "-42");
    assert_eq!(i64_to_string(i64::MIN), "-9223372036854775808");
    assert_eq!(parse_usize_str("0042"), Some(42));
    assert_eq!(parse_usize_str(""), None);
    assert_eq!(parse_usize_str("4x"), None);
    assert_eq!(parse_usize_str("99999999999999999999999"), None);
}

#[test]
fn instants_as_text() {
    let t = Timestamp { unix_seconds: 1_704_161_045, nanosecond: 0, offset_seconds: 3600 };
    assert_eq!(rfc3339_or_empty(&t), "2024-01-02T03:04:05+01:00");
    assert_eq!(rfc3339_or_empty(&at(0)), "1970-01-01T00:00:00Z");
    let ns = Timestamp { unix_seconds: 0, nanosecond: 500_000_000, offset_seconds: -1800 };
    assert_eq!(rfc3339_or_empty(&ns), "1969-12-31T23:30:00.5-00:30");
    let bad = Timestamp { unix_seconds: 0, nanosecond: 0, offset_seconds: 999_999 };
    assert_eq!(rfc3339_or_empty(&bad), "");
}

#[test]
fn fresh_ids_are_ulids() {
    let a = new_id();
    let b = new_id();
    assert_eq!(a.len(), 26);
    assert!(a.chars().all(|c| c.is_ascii_digit() || (c.is_ascii_uppercase() && !"ILOU".contains(c))));
    assert_ne!(a, b);
}

#[test]
fn attribute_escaping() {
    assert_eq!(escape_attr("a&\"<>b"), "a&amp;&quot;&lt;&gt;b");
    let mut s = String::from("<section");
    push_attr(&mut s, "data-x", "1 \"2\"");
    assert_eq!(s, "<section data-x=\"1 &quot;2&quot;\"");
    assert_eq!(line_range_string(3, 12), "3-12");
}

#[test]
fn conflicts_group_active_items_by_scope_and_claim() {
    let items = vec![
        rec("A", Scope::User, Status::Active, "Grid size", None),
        rec("B", Scope::User, Status::Active, "grid  SIZE", None),
        rec("C", Scope::Project, Status::Active, "Grid size", None),
        rec("D", Scope::User, Status::Stale, "Grid size", None),
        rec("E", Scope::User, Status::Active, "other", Some("grid-size")),
        rec("F", Scope::Project, Status::Active, "x", Some("k")),
    ];
    let cs = detect(&items);
    assert_eq!(cs.len(), 1);
    assert_eq!(cs[0].claim_key, "grid-size");
    assert_eq!(cs[0].scope, "user");
    assert_eq!(cs[0].item_ids, vec!["A", "B", "E"]);
    assert_eq!(cs[0].id.len(), 26);
    assert!(detect(&vec![]).is_empty());
}

#[test]
fn graph_nodes_and_edges() {
    let mut a = rec("A", Scope::User, Status::Active, "", None);
    a.body_text = "x".repeat(200);
    let b = rec("B", Scope::Global, Status::Active, "Bee", None);
    let g = graph_data(&vec![a, b]);
    assert_eq!(g.nodes.len(), 2);
    assert_eq!(g.nodes[0].title, "A");
    assert_eq!(g.nodes[0].snippet.chars().count(), 160);
    assert_eq!(g.nodes[1].title, "Bee");
    assert_eq!(g.nodes[1].scope, "global");
    assert_eq!(g.edges.len(), 2);
    assert_eq!(g.edges[1].source, "B");
    assert_eq!(g.edges[1].target, "Z");
    assert_eq!(g.edges[1].rel, "cites");
}

#[test]
fn lexical_tokens_and_overlap() {
    assert_eq!(tokenize("The grid, THE Grid; in m"), vec!["the", "grid"]);
    assert_eq!(lexical_overlap_counts("grid units", "Grid", "units of the grid"), (2, 3));
    assert_eq!(lexical_overlap_counts("", "Grid", "body"), (0, 2));
}

#[test]
fn text_order_and_sorted_insert() {
    assert!(str_lt("a", "b"));
    assert!(str_lt("ab", "abc"));
    assert!(!str_lt("b", "ab"));
    assert!(!str_lt("x", "x"));
    assert!(str_lt("Z", "a"));
    let mut v: Vec<String> = Vec::new();
    for w in ["m", "c", "x", "c", "a"] {
        insert_sorted(&mut v, w.to_string());
    }
    assert_eq!(v, vec!["a", "c", "m", "x"]);
}

#[test]
fn approvals_refused_with_reasons() {
    let entries = vec![entry("Q1", "new", "approved"), entry("Q2", "update", "pending"), entry("Q3", "new", "pending")];
    match check_approvable(&entries, "Q0") {
        Err(ReviewError::NotFound(m)) => assert_eq!(m, "queue entry not found: Q0"),
        _ => panic!("expected not found"),
    }
    match check_approvable(&entries, "Q1") {
        Err(ReviewError::BadRequest(m)) => assert_eq!(m, "queue entry not pending (current: approved)"),
        _ => panic!("expected bad request"),
    }
    match check_approvable(&entries, "Q2") {
        Err(ReviewError::BadRequest(m)) => assert_eq!(m, "approve only supports kind='new' for MVP (got 'update')"),
        _ => panic!("expected bad request"),
    }
    assert!(matches!(check_approvable(&entries, "Q3"), Ok(2)));
    assert_eq!(decided_by(&None), "user");
    assert_eq!(decided_by(&Some("ann".to_string())), "ann");
}

#[test]
fn proposals_become_items() {
    let p = Proposal {
        knowledge_type: Some("Decision".to_string()),
        scope: None,
        source_type: None,
        stability: None,
        domain: Some("d".to_string()),
        tags: vec!["t1".to_string()],
        title: Some("Title".to_string()),
        body_text: None,
        body_html: Some("<p>Hello   <b>world</b></p>".to_string()),
        relations: vec![],
        claim_key: None,
    };
    let it = item_from_payload(p, "agent:bot", "0.700".to_string());
    assert_eq!(it.id.len(), 26);
    assert_eq!(it.knowledge_type, KnowledgeType::Decision);
    assert_eq!(it.scope, Scope::User);
    assert_eq!(it.source_type, SourceType::Agent);
    assert_eq!(it.status, Status::Active);
    assert_eq!(it.stability, Stability::MediumTerm);
    assert_eq!(it.confidence, "0.700");
    assert_eq!(it.created, it.modified);
    assert_eq!(it.body_text, "Hello world");
    assert_eq!(it.body_html, "<p>Hello   <b>world</b></p>");
    assert_eq!(strip_html("  <a href='x'>link</a>\n text "), "link text");
}

#[test]
fn approved_sections_find_their_file() {
    assert_eq!(default_target_for(KnowledgeType::Constraint, Scope::Project, Some("aermod")), "projects/aermod/constraints.html");
    assert_eq!(default_target_for(KnowledgeType::Fact, Scope::Project, None), "projects/default/facts.html");
    assert_eq!(default_target_for(KnowledgeType::Fact, Scope::User, None), "user/facts.html");
    let doc = empty_document_for("facts");
    assert_eq!(doc, "<!doctype html>\n<html lang=\"en\">\n<head>\n  <meta charset=\"utf-8\">\n  <title>facts</title>\n</head>\n<body>\n\n</body>\n</html>\n");
    assert_eq!(
        insert_before_body_close(&doc, "<section></section>"),
        "<!doctype html>\n<html lang=\"en\">\n<head>\n  <meta charset=\"utf-8\">\n  <title>facts</title>\n</head>\n<body>\n<section></section>\n</body>\n</html>\n"
    );
    assert_eq!(insert_before_body_close("<p>x</p>  ", "S"), "<p>x</p>\nS\n");
    assert_eq!(insert_before_body_close("a</BODY>b</body>c", "S"), "a</BODY>b\nS\n</body>c");
}

#[test]
fn embedding_bookkeeping() {
    assert_eq!(embed_text_for("T", "body"), "T\n\nbody");
    assert_eq!(embed_text_for("", "body"), "body");
    assert!(model_changed(&None, "m"));
    assert!(model_changed(&Some("old".to_string()), "m"));
    assert!(!model_changed(&Some("m".to_string()), "m"));
    assert_eq!(items_to_embed(&vec![true, false, false], false), vec![1, 2]);
    assert_eq!(items_to_embed(&vec![true, false], true), vec![0, 1]);
    assert!(check_batch_len(2, 2).is_ok());
    match check_batch_len(3, 1) {
        Err(Error::Other(m)) => assert_eq!(m, "embed_batch length mismatch: 3 in, 1 out"),
        _ => panic!("expected a length error"),
    }
    assert_eq!(Embedder::model_name(), "bge-small-en-v1.5");
    assert_eq!(Embedder::dim(), DEFAULT_DIM);
    assert_eq!(SYSTEM_DIRNAME, "system");
    assert_eq!(INDEX_FILENAME, "index.sqlite");
}

#[test]
fn reindex_report_counts() {
    let mut r = ReindexReport::new();
    r.record("a.html", FileOutcome::Indexed(3, 2));
    r.record("b.html", FileOutcome::Indexed(0, 0));
    r.record("c.html", FileOutcome::Failed("bad section".to_string()));
    r.record("d.html", FileOutcome::Unchanged(4));
    assert_eq!(r.files_scanned, 4);
    assert_eq!(r.items_indexed, 3);
    assert_eq!(r.items_embedded, 6);
    assert_eq!(r.files_skipped, 2);
    let resp = reindex_response(&r);
    assert_eq!(resp.files_scanned, 4);
    assert_eq!(resp.files_skipped, 2);
    assert_eq!(resp.errors, vec!["c.html: bad section".to_string()]);
}

#[test]
fn unchanged_files_are_told_by_ids_and_hashes() {
    let with_body = |id: &str, body: &str| {
        let mut r = rec(id, Scope::Workspace, Status::Active, "T", None);
        r.body_text = body.to_string();
        r
    };
    let hashes = section_hashes(&vec![with_body("A", "body"), with_body("B", "abc")]);
    assert_eq!(hashes.len(), 2);
    assert_eq!(hashes[0].0, "A");
    assert_eq!(hashes[1].0, "B");
    assert_eq!(hashes[1].1, "ba7816bf8f01cfea414140de5dae2223b00361a396177a9cb410ff61f20015ad");
    let stored = vec![hashes[1].clone(), hashes[0].clone()];
    assert!(file_unchanged(&stored, &hashes));
    assert!(file_unchanged(&vec![], &section_hashes(&vec![])));
    assert!(!file_unchanged(&stored[..1].to_vec(), &hashes));
    assert!(!file_unchanged(&stored, &section_hashes(&vec![with_body("A", "body"), with_body("B", "abd")])));
    assert!(!file_unchanged(&stored, &section_hashes(&vec![with_body("C", "body"), with_body("B", "abc")])));
    let written: Vec<(String, String)> = [with_body("A", "body"), with_body("B", "abc")]
        .iter()
        .map(|it| {
            let row = item_row(it, "f.html", 0);
            (row.id, row.content_hash)
        })
        .collect();
    assert!(file_unchanged(&written, &hashes));
}

#[test]
fn bundle_entries_as_text() {
    let it = rec("A", Scope::Workspace, Status::Active, "T", None);
    let b = bundle_text(&it);
    assert_eq!(b.id, "A");
    assert_eq!(b.knowledge_type, "fact");
    assert_eq!(b.scope, "workspace");
    assert_eq!(b.stability, "medium-term");
    assert_eq!(b.created, "1970-01-01T00:00:00Z");
    assert_eq!(b.valid_until.as_deref(), Some("1970-01-02T00:00:00Z"));
    assert_eq!(b.tags, vec!["t"]);
    assert_eq!(b.relations.len(), 1);
    let rv = relation_views(&it.relations);
    assert_eq!(rv[0].rel, "cites");
    assert_eq!(rv[0].target, "Z");
}

#[test]
fn proposals_and_targets_checked() {
    assert!(check_proposed_by("agent:bot").is_ok());
    match check_proposed_by("   ") {
        Err(ReviewError::BadRequest(m)) => assert_eq!(m, "proposed_by is required"),
        _ => panic!("expected bad request"),
    }
    assert!(check_update_target(true, "X").is_ok());
    match check_update_target(false, "X9") {
        Err(ReviewError::NotFound(m)) => assert_eq!(m, "target item not found: X9"),
        _ => panic!("expected not found"),
    }
    assert_eq!(approval_file(&Some("a/b.html".to_string()), KnowledgeType::Fact, Scope::User, None), "a/b.html");
    assert_eq!(approval_file(&None, KnowledgeType::Warning, Scope::Global, None), "global/warnings.html");
}

#[test]
fn ages_in_whole_seconds() {
    let t = |s: i64, n: u32| Timestamp { unix_seconds: s, nanosecond: n, offset_seconds: 0 };
    assert_eq!(age_seconds(t(100, 0), t(40, 0)), 60);
    assert_eq!(age_seconds(t(100, 100), t(40, 500)), 59);
    assert_eq!(age_seconds(t(40, 0), t(100, 0)), 0);
    assert_eq!(age_seconds(t(i64::MAX, 999_999_999), t(i64::MIN, 0)), u64::MAX);
}

#[test]
fn approval_targets_stay_inside_the_vault() {
    assert!(check_target_path("projects/a/decisions.html").is_ok());
    assert!(check_target_path("notes/..hidden/x.html").is_ok());
    assert!(check_target_path("a..b.html").is_ok());
    for bad in ["/etc/passwd", "\\share\\x.html", "../x.html", "a/../../x.html", "a/..", ".."] {
        match check_target_path(bad) {
            Err(ReviewError::BadRequest(m)) => {
                assert_eq!(m, format!("target_file must be a relative path inside the vault: {}", bad))
            }
            _ => panic!("accepted {}", bad),
        }
    }
}
