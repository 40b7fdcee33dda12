[package]
name = "rust_shell"
version = "0.0.9"
edition = "2021"
publish = false

[dependencies]
enable-ansi-support = "*"
