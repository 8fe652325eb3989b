[package]
name = "cross-env-rs"
version = "0.1.1"
edition = "2021"
publish = false

[dependencies]
anyhow = "1"
which = "*"
