[package]
name = "transaction_parser"
version = "0.1.0"
edition = "2021"
publish = false

[dependencies]
csv = "=1.4.0"
rust_decimal = { version = "=1.43.0", default-features = false }
