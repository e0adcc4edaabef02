use ctxk::clock::Timestamp;
use ctxk::html_emit::emit_section;
use ctxk::html_parse::{parse_lines, parse_str, parse_str_at};
use ctxk::schema::{KnowledgeRecord, KnowledgeType, Relation, Scope, SourceType, Stability, Status};

fn at(secs: i64) -> Timestamp {
    Timestamp { unix_seconds: secs, nanosecond: 0, offset_seconds: 0 }
}

#[test]
fn parses_minimal_section() {
    let html = r#"<!doctype html><html><body>
            <section data-knowledge-id="01HZX">
              <h3>Hello</h3>
              <p>World</p>
            </section>
        </body></html>"#;
    let items = parse_str(html).unwrap();
    assert_eq!(items.len(), 1);
    assert_eq!(items[0].id, "01HZX");
    assert_eq!(items[0].title, "Hello");
    assert!(items[0].body_text.contains("World"));
}

#[test]
fn parses_all_metadata() {
    let html = r#"<!doctype html><html><body>
            <section data-knowledge-id="01ABC"
                     data-knowledge-type="constraint"
                     data-scope="project"
                     data-confidence="0.9"
                     data-source-type="user"
                     data-status="active"
                     data-stability="long-term"
                     data-domain="aermod"
                     data-tags="grid units">
              <h3>Use meters</h3>
              <p>All grids in m.</p>
              <span data-rel="cites" data-target="01XYZ"></span>
            </section>
        </body></html>"#;
    let items = parse_str(html).unwrap();
    let it = &items[0];
    assert_eq!(it.knowledge_type, KnowledgeType::Constraint);
    assert_eq!(it.scope, Scope::Project);
    assert!((it.confidence.parse::<f64>().unwrap() - 0.9).abs() < 1e-9);
    assert_eq!(it.stability, Stability::LongTerm);
    assert_eq!(it.domain.as_deref(), Some("aermod"));
    assert_eq!(it.tags, vec!["grid", "units"]);
    assert_eq!(it.relations.len(), 1);
    assert_eq!(it.relations[0].rel, "cites");
    assert_eq!(it.relations[0].target, "01XYZ");
}

#[test]
fn defaults_fill_missing_attributes() {
    let html = r#"<html><body><section data-knowledge-id="X1"><p>just text</p></section></body></html>"#;
    let now = at(1_700_000_000);
    let items = parse_str_at(html, now).unwrap();
    let it = &items[0];
    assert_eq!(it.knowledge_type, KnowledgeType::Fact);
    assert_eq!(it.scope, Scope::User);
    assert_eq!(it.source_type, SourceType::User);
    assert_eq!(it.status, Status::Active);
    assert_eq!(it.stability, Stability::MediumTerm);
    assert_eq!(it.created, now);
    assert_eq!(it.modified, now);
    assert!(it.valid_from.is_none());
    assert!(it.valid_until.is_none());
    assert!(it.domain.is_none());
    assert!(it.tags.is_empty());
    assert_eq!(it.title, "");
    assert_eq!(it.body_text, "just text");
    assert!(it.claim_key.is_none());
    assert!(it.defined_path.is_none());
    assert_eq!(it.defined_start_line, None);
}

#[test]
fn reads_dates_and_code_location() {
    let html = r#"<html><body>
      <section data-knowledge-id="X2" data-created="2024-01-02T03:04:05Z"
               data-valid-from="2024-05-06" data-valid-until=""
               data-path="src/lib.rs" data-defined-at="10-20" data-claim-key="k">
        <h2>T</h2>
      </section></body></html>"#;
    let now = at(0);
    let items = parse_str_at(html, now).unwrap();
    let it = &items[0];
    assert_eq!(it.created, at(1_704_164_645));
    assert_eq!(it.modified, now);
    assert_eq!(it.valid_from, Some(at(1_714_953_600)));
    assert_eq!(it.valid_until, None);
    assert_eq!(it.defined_path.as_deref(), Some("src/lib.rs"));
    assert_eq!(it.defined_start_line, Some(10));
    assert_eq!(it.defined_end_line, Some(20));
    assert_eq!(it.claim_key.as_deref(), Some("k"));
}

#[test]
fn sections_come_in_document_order() {
    let html = r#"<html><body>
      <section data-knowledge-id="A"><h3>first</h3></section>
      <div><section data-knowledge-id="B"><h4>second</h4></section></div>
      <section><h3>no id, not a knowledge section</h3></section>
    </body></html>"#;
    let items = parse_str_at(html, at(0)).unwrap();
    assert_eq!(items.len(), 2);
    assert_eq!(items[0].id, "A");
    assert_eq!(items[1].id, "B");
    assert_eq!(items[1].title, "second");
}

#[test]
fn line_ranges() {
    assert_eq!(parse_lines(None), (None, None));
    assert_eq!(parse_lines(Some("")), (None, None));
    assert_eq!(parse_lines(Some("7")), (Some(7), Some(7)));
    assert_eq!(parse_lines(Some(" 3 - 9 ")), (Some(3), Some(9)));
    assert_eq!(parse_lines(Some("3-x")), (Some(3), None));
    assert_eq!(parse_lines(Some("abc")), (None, None));
}

#[test]
fn emitted_section_reads_back() {
    let item = KnowledgeRecord {
        id: "01EMIT".to_string(),
        knowledge_type: KnowledgeType::Decision,
        scope: Scope::Project,
        confidence: "0.750".to_string(),
        source_type: SourceType::Agent,
        status: Status::Stale,
        stability: Stability::ShortTerm,
        created: at(1_704_164_645),
        modified: at(1_704_164_700),
        valid_from: None,
        valid_until: Some(at(1_714_953_600)),
        domain: Some(String::new()),
        tags: vec!["x".to_string(), "y".to_string()],
        title: "Not the heading".to_string(),
        body_text: "Body  text\nas given".to_string(),
        body_html: "<h3>Title</h3><p>body</p>\n".to_string(),
        relations: vec![Relation { rel: "cites".to_string(), target: "01T\"Q".to_string() }],
        claim_key: Some("c<k>".to_string()),
        defined_path: Some("src/a.rs".to_string()),
        defined_start_line: Some(4),
        defined_end_line: Some(8),
    };
    let html = format!("<html><body>\n{}</body></html>", emit_section(&item));
    let back = parse_str_at(&html, at(0)).unwrap();
    assert_eq!(back.len(), 1);
    let b = &back[0];
    assert_eq!(b.id, item.id);
    assert_eq!(b.knowledge_type, item.knowledge_type);
    assert_eq!(b.scope, item.scope);
    assert_eq!(b.confidence, item.confidence);
    assert_eq!(b.source_type, item.source_type);
    assert_eq!(b.status, item.status);
    assert_eq!(b.stability, item.stability);
    assert_eq!(b.created, item.created);
    assert_eq!(b.modified, item.modified);
    assert_eq!(b.valid_from, item.valid_from);
    assert_eq!(b.valid_until, item.valid_until);
    assert_eq!(b.domain, item.domain);
    assert_eq!(b.tags, item.tags);
    assert_eq!(b.title, item.title);
    assert_eq!(b.body_html, item.body_html);
    assert_eq!(b.relations.len(), 1);
    assert_eq!(b.relations[0].rel, "cites");
    assert_eq!(b.relations[0].target, "01T\"Q");
    assert_eq!(b.body_text, item.body_text);
    assert_eq!(b.claim_key, item.claim_key);
    assert_eq!(b.defined_path, item.defined_path);
    assert_eq!(b.defined_start_line, Some(4));
    assert_eq!(b.defined_end_line, Some(8));
}

#[test]
fn documented_section_example_reads() {
    let html = r#"<html><body>
<section data-knowledge-id="01HZX1"
         data-knowledge-type="constraint"
         data-scope="project"
         data-confidence="0.9"
         data-source-type="user"
         data-status="active"
         data-stability="long-term"
         data-created="2026-05-21T10:00:00Z"
         data-modified="2026-05-21T10:00:00Z"
         data-valid-until=""
         data-domain="aermod"
         data-tags="receptor-grid units">
  <h3>Receptor grid units must be meters</h3>
  <p>All AERMOD receptor grids in this project use meters, not feet.</p>
  <footer class="ctxk-meta">
    <span data-rel="supersedes" data-target="01HZX5"></span>
  </footer>
</section></body></html>"#;
    let items = parse_str_at(html, at(0)).unwrap();
    let it = &items[0];
    assert_eq!(it.knowledge_type, KnowledgeType::Constraint);
    assert_eq!(it.created, it.modified);
    assert_eq!(it.created, at(1_779_357_600));
    assert_eq!(it.valid_until, None);
    assert_eq!(it.tags, vec!["receptor-grid", "units"]);
    assert_eq!(it.title, "Receptor grid units must be meters");
    assert_eq!(
        it.body_text,
        "Receptor grid units must be meters All AERMOD receptor grids in this project use meters, not feet."
    );
    assert_eq!(it.relations[0].rel, "supersedes");
    assert_eq!(it.relations[0].target, "01HZX5");
    assert_eq!(it.derived_claim_key(), "receptor-grid-units-must-be-meters:aermod");
}

#[test]
fn only_sections_with_an_id_are_read() {
    let html = r#"<html><body>
<section><h2>No id</h2></section>
<section data-knowledge-id><h2>Empty id</h2></section>
<section data-knowledge-id="B"><h2>Second</h2></section>
</body></html>"#;
    let items = parse_str_at(html, at(7)).unwrap();
    assert_eq!(items.len(), 2);
    assert_eq!(items[0].id, "");
    assert_eq!(items[0].title, "Empty id");
    assert_eq!(items[1].id, "B");
    assert_eq!(items[1].created, at(7));
    assert!(parse_str("<p>no sections</p>").unwrap().is_empty());
}
