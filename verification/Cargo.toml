[package]
name = "grug_ls"
version = "1.0.0"
edition = "2021"
publish = false

[dependencies]
log = "=0.4.34"
lsp-server = "=0.10.0"
lsp-types = "=0.97.0"
notify = "=8.2.1"
serde = { version = "=1.0.229", features = ["derive"] }
serde_json = "=1.0.154"
structured-logger = "=1.0.5"
tree-sitter = "=0.27.1"
tree-sitter-grug = "=0.2.15"
tree-sitter-json = "=0.24.8"
vfs = "=0.13.0"
