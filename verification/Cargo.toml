[package]
name = "turbo_gc"
version = "0.1.0"
edition = "2021"
publish = false

[dependencies]
anyhow = "1"
indexmap = "2"
rustc-hash = "2"
