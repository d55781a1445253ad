[package]
name = "repodiff"
version = "0.1.0"
edition = "2021"
publish = false

[dependencies]
regex = "1"
fnmatch-regex = "0.2"
tree-sitter = "0.20"
tree-sitter-c-sharp = "0.20"
serde = { version = "1", features = ["derive"] }
serde_json = "1"
thiserror = "1"
clap = { version = "4", features = ["derive"] }
tiktoken-rs = "0.5"
