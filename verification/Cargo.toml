[package]
name = "ebkit"
version = "0.1.0"
edition = "2021"
publish = false

[dependencies]
winnow = "=0.7.15"
syn = "2"
quote = "1"
proc-macro2 = "1"
