//! Verified core of a local-first knowledge store: the vocabulary of
//! knowledge items, the `<section data-*>` HTML format they are kept in,
//! the SQLite rows they are indexed as, the retrieval rules that choose
//! what an agent gets to see, the review queue's decisions, and the code
//! symbols a Rust source file contributes.
pub mod text;
pub mod schema;
pub mod decimal;
pub mod clock;
pub mod ids;
pub mod html_emit;
pub mod html_doc;
pub mod html_parse;
pub mod lexical;
pub mod syntax;
pub mod code;
pub mod rust_source;
pub mod query;
pub mod conflict;
pub mod bundle;
pub mod rerank;
pub mod store;
pub mod review;
pub mod graph;
pub mod vault;
pub mod embed;
