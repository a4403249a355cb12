[package]
name = "lint_engine"
version = "0.1.0"
edition = "2021"
publish = false

[dependencies]
ahash = "0.8"
itertools = "0.12"
regex = "1"
uuid = { version = "1", features = ["v4"] }
walkdir = "2"
