[package]
name = "cgrep"
version = "0.1.0"
edition = "2021"
publish = false

[dependencies]
tree-sitter = "0.20"
tree-sitter-rust = "0.20"
tokio = { version = "1", features = ["rt-multi-thread", "macros", "fs"] }
futures = "0.3"
