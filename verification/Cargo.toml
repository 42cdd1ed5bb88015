[package]
name = "delphi_language_server"
version = "0.1.0"
edition = "2021"
publish = false

[dependencies]
clap = { version = "4", features = ["derive"] }
env_logger = "*"
tokio = { version = "1", features = ["full"] }
tower-lsp = "0.20"
tree-sitter = "0.20"
