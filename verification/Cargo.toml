[package]
name = "rust-tinynix"
version = "0.1.0"
edition = "2021"
publish = false

[dependencies]
home = "0.5"
indexmap = "2"
proc-macro2 = "1"
quote = "1"
syn = "2"
