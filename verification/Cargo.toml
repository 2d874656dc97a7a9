[package]
name = "cfg_expr"
version = "0.1.0"
edition = "2021"
publish = false

[dependencies]
target-lexicon = "=0.11.2"
