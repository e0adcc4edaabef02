[package]
name = "ctxk"
version = "0.1.0"
edition = "2021"
publish = false

[dependencies]
ulid = "=1.2.1"
time = { version = "=0.3.55", features = ["formatting", "parsing", "serde"] }
sha2 = "=0.10.9"
scraper = { version = "=0.19.1", features = ["deterministic"] }
tree-sitter = "=0.22.6"
tree-sitter-rust = "=0.21.2"
serde = { version = "=1.0.229", features = ["derive"] }
serde_json = "=1.0.154"
thiserror = "=1.0.69"
anyhow = "=1.0.104"
walkdir = "=2.5.0"
rusqlite = { version = "=0.31.0", features = ["bundled"] }
axum = "=0.7.9"
tokio = { version = "=1.54.1", features = ["rt-multi-thread", "net", "macros"] }
tower-http = { version = "=0.5.2", features = ["cors"] }
clap = { version = "=4.6.7", features = ["derive", "env"] }
tracing = "=0.1.44"
tracing-subscriber = { version = "=0.3.23", features = ["env-filter"] }
once_cell = "=1.21.4"
fastembed = { version = "=3.14.1", default-features = false, features = ["ort-load-dynamic", "online"] }
ort-sys = { version = "=2.0.0-rc.4", default-features = false }
