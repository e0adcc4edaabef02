use ctxk::clock::Timestamp;
use ctxk::code::{
    add_file_symbols,
    code_html_path, emit_file_html, escape_html, fresh_ids, name_index, qualified, relative_posix,
    symbol_ids, symbol_to_item, CodeIndexer, CodeSymbol, IndexReport, NameIndex, SymbolKind,
};
use ctxk::html_parse::parse_str_at;
use ctxk::schema::{KnowledgeType, Scope, SourceType, Stability, Status};

fn at(secs: i64) -> Timestamp {
    Timestamp { unix_seconds: secs, nanosecond: 0, offset_seconds: 0 }
}

fn sym(name: &str, qname: &str, line: usize, calls: &[&str], imports: &[&str]) -> CodeSymbol {
    CodeSymbol {
        name: name.to_string(),
        qualified_name: qname.to_string(),
        kind: SymbolKind::Function,
        file_path: "src/a.rs".to_string(),
        start_line: line,
        end_line: line + 2,
        body: format!("fn {}() {{}}", name),
        calls: calls.iter().map(|s| s.to_string()).collect(),
        imports: imports.iter().map(|s| s.to_string()).collect(),
        language: "rust".to_string(),
    }
}

#[test]
fn kind_names() {
    assert_eq!(SymbolKind::Function.as_str(), "function");
    assert_eq!(SymbolKind::Module.as_str(), "module");
    assert_eq!(SymbolKind::Function.knowledge_type(), "method");
    assert_eq!(SymbolKind::Struct.knowledge_type(), "definition");
    assert_eq!(sym("f", "f", 1, &[], &[]).language_slug(), "rust");
}

#[test]
fn paths_and_names() {
    assert_eq!(code_html_path("proj", "src/a/b.rs"), "code/proj/src__a__b.rs.html");
    assert_eq!(code_html_path("p", "a\\b.rs"), "code/p/a__b.rs.html");
    assert_eq!(relative_posix("/root/x/src/lib.rs", "/root/x"), "src/lib.rs");
    assert_eq!(relative_posix("/other/lib.rs", "/root/x"), "/other/lib.rs");
    assert_eq!(qualified(&vec![], "f"), "f");
    assert_eq!(qualified(&vec!["m".to_string(), "impl S".to_string()], "f"), "m::impl S::f");
    assert_eq!(escape_html("a<b>&\"c\""), "a&lt;b&gt;&amp;&quot;c&quot;");
}

#[test]
fn name_index_lists_ids_in_order() {
    let mut idx = NameIndex::new();
    assert!(idx.get("f").is_none());
    idx.add("f", "1");
    idx.add("g", "2");
    idx.add("f", "3");
    assert_eq!(idx.get("f").unwrap(), &vec!["1".to_string(), "3".to_string()]);
    assert_eq!(idx.get("g").unwrap(), &vec!["2".to_string()]);
    assert!(idx.get("h").is_none());
}

#[test]
fn ids_are_shared_by_symbols_with_one_key() {
    let syms = vec![sym("f", "f", 1, &[], &[]), sym("g", "g", 5, &[], &[]), sym("f", "f", 1, &[], &[])];
    let fresh = vec!["A".to_string(), "B".to_string(), "C".to_string()];
    assert_eq!(symbol_ids(&syms, &fresh), vec!["C".to_string(), "B".to_string(), "C".to_string()]);
    let ids = fresh_ids(&syms);
    assert_eq!(ids.len(), 3);
    assert!(ids.iter().all(|i| i.len() == 26));
    assert_ne!(ids[0], ids[1]);
    let files = vec![syms, vec![sym("f", "m::f", 9, &[], &[])]];
    let idx = name_index(&files, &vec![fresh, vec!["D".to_string()]]);
    assert_eq!(
        idx.get("f").unwrap(),
        &vec!["A".to_string(), "C".to_string(), "D".to_string()]
    );
}

#[test]
fn symbol_item_fields_and_relations() {
    let mut idx = NameIndex::new();
    idx.add("helper", "H1");
    idx.add("helper", "SELF");
    idx.add("Path", "P1");
    let s = sym("run", "Runner::run", 3, &["helper", "missing"], &["std::path::Path"]);
    let item = symbol_to_item("SELF", "proj", &s, &idx, at(5));
    assert_eq!(item.id, "SELF");
    assert_eq!(item.knowledge_type, KnowledgeType::Method);
    assert_eq!(item.scope, Scope::Project);
    assert_eq!(item.confidence, "1.000");
    assert_eq!(item.source_type, SourceType::CodeImport);
    assert_eq!(item.status, Status::Active);
    assert_eq!(item.stability, Stability::LongTerm);
    assert_eq!(item.created, at(5));
    assert_eq!(item.domain.as_deref(), Some("code/rust"));
    assert_eq!(item.tags, vec!["code", "rust", "function", "proj"]);
    assert_eq!(item.title, "Runner::run");
    assert_eq!(item.body_text, "Runner::run\nsrc/a.rs\nfn run() {}");
    assert_eq!(
        item.body_html,
        "  <h3>Runner::run <small>src/a.rs:3-5</small></h3>\n  <pre><code class=\"language-rust\">fn run() {}</code></pre>\n"
    );
    let rels: Vec<(&str, &str)> = item.relations.iter().map(|r| (r.rel.as_str(), r.target.as_str())).collect();
    assert_eq!(rels, vec![("calls", "H1"), ("uses", "P1")]);
    assert_eq!(item.claim_key.as_deref(), Some("src/a.rs#Runner::run"));
    assert_eq!(item.defined_path.as_deref(), Some("src/a.rs"));
    assert_eq!(item.defined_start_line, Some(3));
    assert_eq!(item.defined_end_line, Some(5));
}

#[test]
fn file_html_parses_back_to_its_items() {
    let syms = vec![sym("a", "a", 1, &["b"], &[]), sym("b", "b", 4, &[], &[])];
    let mut idx = NameIndex::new();
    idx.add("a", "ID-A");
    idx.add("b", "ID-B");
    let ids = vec!["ID-A".to_string(), "ID-B".to_string()];
    let html = emit_file_html("proj", "src/a.rs", &syms, &ids, &idx, at(1_700_000_000));
    assert!(html.starts_with("<!doctype html>\n<html lang=\"en\">\n<head>\n  <meta charset=\"utf-8\">\n  <title>proj / src/a.rs</title>"));
    assert!(html.ends_with("</body>\n</html>\n"));
    assert!(html.contains("data-source-type=\"code-import\""));
    let items = parse_str_at(&html, at(0)).unwrap();
    assert_eq!(items[0].source_type, SourceType::CodeImport);
    assert_eq!(items.len(), 2);
    assert_eq!(items[0].id, "ID-A");
    assert_eq!(items[0].title, "a");
    assert_eq!(items[0].created, at(1_700_000_000));
    assert_eq!(items[0].relations.len(), 1);
    assert_eq!(items[0].relations[0].target, "ID-B");
    assert_eq!(items[1].defined_start_line, Some(4));
}

#[test]
fn render_files_one_document_per_source() {
    let indexer = CodeIndexer { project_name: "proj", project_root: "/src", vault_root: "/vault" };
    let paths = vec!["src/a.rs".to_string(), "src/b/c.rs".to_string()];
    let files = vec![vec![sym("a", "a", 1, &["c"], &[])], vec![sym("c", "c", 2, &[], &[])]];
    let out = indexer.render_files(&paths, &files, at(0));
    assert_eq!(out.len(), 2);
    assert_eq!(out[0].0, "code/proj/src__a.rs.html");
    assert_eq!(out[1].0, "code/proj/src__b__c.rs.html");
    let a = parse_str_at(&out[0].1, at(0)).unwrap();
    let c = parse_str_at(&out[1].1, at(0)).unwrap();
    assert_eq!(a[0].relations.len(), 1);
    assert_eq!(a[0].relations[0].target, c[0].id);
    assert_eq!(c[0].id.len(), 26);
    let report = IndexReport::default();
    assert_eq!(report.files_parsed, 0);
    assert!(report.errors.is_empty());
}

#[test]
fn symbols_are_grouped_by_file() {
    let mut paths: Vec<String> = Vec::new();
    let mut files: Vec<Vec<CodeSymbol>> = Vec::new();
    add_file_symbols(&mut paths, &mut files, "a.rs".to_string(), vec![sym("f", "f", 1, &[], &[])]);
    add_file_symbols(&mut paths, &mut files, "b.rs".to_string(), vec![sym("g", "g", 1, &[], &[])]);
    add_file_symbols(&mut paths, &mut files, "a.rs".to_string(), vec![sym("h", "h", 9, &[], &[])]);
    assert_eq!(paths, vec!["a.rs".to_string(), "b.rs".to_string()]);
    assert_eq!(files[0].iter().map(|s| s.name.as_str()).collect::<Vec<_>>(), vec!["f", "h"]);
    assert_eq!(files[1].len(), 1);
}
