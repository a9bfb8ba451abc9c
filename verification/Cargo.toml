[package]
name = "ts-api"
version = "0.1.0"
edition = "2021"
publish = false

[dependencies]
convert_case = "=0.6.0"
darling = "=0.14.4"
poem = { version = "=1.3.59", features = ["cookie"] }
proc-macro-crate = "=1.3.1"
proc-macro2 = "=1.0.107"
quote = "=1.0.47"
serde = { version = "=1.0.229", features = ["derive"] }
syn = { version = "=1.0.109", features = ["full", "extra-traits"] }
ts-rs = "=12.0.1"
