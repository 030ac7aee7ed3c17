[package]
name = "path_server"
version = "0.1.0"
edition = "2021"
publish = false

[dependencies]
regex = "1"
globset = "0.4"
serde = { version = "1", features = ["derive"] }
serde_json = "1"
line-index = "*"
tree-sitter = "*"
tree-sitter-javascript = "*"
tree-sitter-typescript = "*"
tree-sitter-python = "*"
tree-sitter-rust = "*"
tower-lsp-server = "*"
tokio = { version = "1", features = ["full"] }
hf = "*"
