# ctxk

A local-first knowledge store: knowledge items live as `<section data-*>`
elements in HTML files, are indexed in SQLite, and are assembled into
context bundles for AI agents over a small HTTP API.

- `src/` is the library, verified with Verus: the item vocabulary, writing
  and reading the HTML sections, the SQL listing statement and item rows,
  the query filters and candidate pool, conflict detection, the review
  queue's decisions, the graph view, and the extraction of code symbols
  from Rust sources (tree-sitter) with the HTML files they become. Calls
  into `scraper`, `time`, `sha2`, `ulid` and `tree-sitter` sit behind small
  trusted wrappers whose contracts name what those crates return.
- `app/` is the `ctxk` program around it: the command line, the axum
  server, the rusqlite store, walking directories, embeddings (fastembed)
  and the floating-point scoring.
- `tests/` exercise the library on concrete inputs.
