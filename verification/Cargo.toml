[package]
name = "haproxy_lsp"
version = "0.1.0"
edition = "2021"
publish = false

[dependencies]
serde_json = "1"
tree-sitter = "*"
zed_extension_api = "*"
