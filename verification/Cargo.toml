[package]
name = "code_ranker"
version = "0.1.0"
edition = "2021"
publish = false

[dependencies]
anyhow = "*"
cargo_metadata = "*"
proc-macro2 = { version = "*", features = ["span-locations"] }
serde = { version = "*", features = ["derive"] }
serde_json = "*"
syn = { version = "*", features = ["full", "visit", "extra-traits"] }
toml = "*"
tree-sitter = "*"
tree-sitter-python = "*"
tree-sitter-rust = "*"
which = "*"

[dev-dependencies]
tempfile = "*"
