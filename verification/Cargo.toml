[package]
name = "imp_tui"
version = "0.1.0"
edition = "2021"
publish = false

[dependencies]
unicode-width = "*"
serde_json = "1"
walkdir = "2"
