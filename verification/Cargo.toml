[package]
name = "serde_json_macro"
version = "0.1.0"
edition = "2021"
publish = false

[dependencies]
cairo-lang-macro = "*"
cairo-lang-parser = "*"
cairo-lang-syntax = "*"
