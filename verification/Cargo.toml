[package]
name = "static_single_assignment"
version = "0.1.0"
edition = "2021"
publish = false

[dependencies]
indexmap = "1.9"
leo-ast = "~1.6"
leo-span = "~1.6"
