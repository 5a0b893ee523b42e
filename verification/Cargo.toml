[package]
name = "rust_shell"
version = "0.1.0"
edition = "2021"
publish = false

[dependencies]
tokio = { version = "1", features = ["full"] }
nix = { version = "0.29", features = ["signal", "process", "fs"] }
crossterm = "0.28"
