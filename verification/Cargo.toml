[package]
name = "xmpkit"
version = "0.1.0"
edition = "2021"
publish = false

[dependencies]
indexmap = "=2.14.2"
quick-xml = "=0.42.0"
