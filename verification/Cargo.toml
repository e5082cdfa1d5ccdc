[package]
name = "comment_spans"
version = "0.1.0"
edition = "2021"
publish = false

[dependencies]
clap = { version = "*", features = ["derive"] }
owo-colors = "*"
tree-sitter = "*"
tree-sitter-c = "*"
tree-sitter-cpp = "*"
