[package]
name = "taoki"
version = "0.1.0"
edition = "2021"
publish = false

[dependencies]
blake3 = "1"
tree-sitter = "*"
tree-sitter-rust = "*"
tree-sitter-python = "*"
tree-sitter-typescript = "*"
tree-sitter-javascript = "*"
tree-sitter-go = "*"
tree-sitter-java = "*"
serde = { version = "1", features = ["derive"] }
serde_json = "1"
fs2 = "0.4"
ignore = "0.4"
globset = "0.4"
rmcp = { version = "*", features = ["server", "transport-io", "macros"] }
tokio = { version = "1", features = ["rt-multi-thread", "macros", "io-std"] }
