[package]
name = "scope_analysis"
version = "0.1.0"
edition = "2021"
publish = false

[dependencies]
id-arena = "*"
tree-sitter = "0.20"
tree-sitter-rust = "0.20"
