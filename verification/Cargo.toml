[package]
name = "turmoil"
version = "0.3.0"
edition = "2021"
publish = false

[dependencies]
bytes = "1"
indexmap = "1.9"
rand = "0.8"
scoped-tls = "1.0"
tokio = { version = "1", default-features = false, features = ["sync", "time"] }
