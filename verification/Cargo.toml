[package]
name = "launcher_filter"
version = "0.1.0"
edition = "2021"
publish = false

[dependencies]
fuzzy-matcher = "*"
tui = "*"
