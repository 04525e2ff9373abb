[package]
name = "lassie"
version = "0.1.0"
edition = "2021"
publish = false

[dependencies]
anyhow = "1"
peg = "*"
rustc-ap-rustc_lexer = "*"
rustyline = "9"
