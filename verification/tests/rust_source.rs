use ctxk::code::SymbolKind;
use ctxk::rust_source::parse_rust;

#[test]
fn extracts_functions_and_calls() {
    let src = r#"
fn outer() {
    inner();
    println!("hello");
}

fn inner() -> i32 { 42 }

struct Foo { x: i32 }

impl Foo {
    fn bar(&self) {
        outer();
    }
}

use std::fs;
use std::path::{Path, PathBuf};
"#;
    let syms = parse_rust(src, "src/lib.rs");
    let names: Vec<&str> = syms.iter().map(|s| s.name.as_str()).collect();
    assert!(names.contains(&"outer"));
    assert!(names.contains(&"inner"));
    assert!(names.contains(&"Foo"));
    assert!(names.contains(&"bar"));
    let outer = syms.iter().find(|s| s.name == "outer").unwrap();
    assert!(outer.calls.iter().any(|c| c == "inner"));
    assert!(outer.calls.iter().any(|c| c == "println!"));
    let some_sym = syms.first().unwrap();
    assert!(some_sym.imports.iter().any(|i| i.contains("std::fs")));
}

#[test]
fn symbols_in_document_order_with_nesting() {
    let src = "mod m {\n    pub fn f() {}\n}\n\nimpl Display for Foo {\n    fn fmt(&self) { a::b::c(); x.y(); }\n}\n\nenum E { A }\ntrait T {}\n";
    let syms = parse_rust(src, "src/x.rs");
    let got: Vec<(&str, &str, SymbolKind)> =
        syms.iter().map(|s| (s.name.as_str(), s.qualified_name.as_str(), s.kind)).collect();
    assert_eq!(
        got,
        vec![
            ("m", "m", SymbolKind::Module),
            ("f", "m::f", SymbolKind::Function),
            ("impl Display for Foo", "impl Display for Foo", SymbolKind::Impl),
            ("fmt", "impl Display for Foo::fmt", SymbolKind::Function),
            ("E", "E", SymbolKind::Enum),
            ("T", "T", SymbolKind::Trait),
        ]
    );
    assert_eq!(syms[0].start_line, 1);
    assert_eq!(syms[0].end_line, 3);
    assert_eq!(syms[1].start_line, 2);
    assert_eq!(syms[3].calls, vec!["c".to_string(), "y".to_string()]);
    assert_eq!(syms[2].calls, vec!["c".to_string(), "y".to_string()]);
    assert!(syms[0].calls.is_empty());
    assert_eq!(syms[4].body, "enum E { A }");
}

#[test]
fn every_symbol_carries_file_imports_and_language() {
    let src = "use b::Z;\npub use a::X;\nuse a::X;\nfn g() { h(); h(); m!(); }\nstruct S;\n";
    let syms = parse_rust(src, "crate/src/g.rs");
    assert_eq!(syms.len(), 2);
    for s in &syms {
        assert_eq!(s.file_path, "crate/src/g.rs");
        assert_eq!(s.language, "rust");
        assert_eq!(s.imports, vec!["a::X".to_string(), "b::Z".to_string(), "use a::X".to_string()]);
    }
    assert_eq!(syms[0].calls, vec!["h".to_string(), "m!".to_string()]);
}

#[test]
fn impl_without_trait_and_empty_file() {
    let syms = parse_rust("impl<T> Wrap<T> { fn new() -> Self { Self::make::<T>() } }", "w.rs");
    assert_eq!(syms[0].name, "impl Wrap<T>");
    assert_eq!(syms[1].qualified_name, "impl Wrap<T>::new");
    assert!(parse_rust("", "e.rs").is_empty());
}
