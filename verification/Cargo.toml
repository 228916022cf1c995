[package]
name = "cretonne"
version = "0.0.0"
edition = "2021"
publish = false

[dependencies]
wasmparser = "0.11"
