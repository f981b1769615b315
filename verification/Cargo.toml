[package]
name = "rfcu"
version = "0.1.0"
edition = "2021"
publish = false

[dependencies]
clap = "4"
regex = "1"
serde = { version = "1", features = ["derive"] }
toml = "*"
tree-sitter = "*"
tree-sitter-python = "*"
tree-sitter-ruby = "*"
tree-sitter-rust = "*"
