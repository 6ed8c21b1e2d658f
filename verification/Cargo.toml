[package]
name = "inline_preview"
version = "0.1.0"
edition = "2021"
publish = false

[dependencies]
futures = "0.3"
regex = "1"
smol = "2"
tempfile = "3"
tracing = "0.1"
which = "6"
