[package]
name = "json-stream-rs-tokenizer"
version = "0.1.0"
edition = "2021"
publish = false

[dependencies]
compact_str = "*"
num-bigint = "0.4"
owned_chars = "*"
pyo3 = { version = "*", features = ["num-bigint"] }
thiserror = "*"
unwrap-infallible = "*"
utf8-read = "*"
utf8-width = "*"
