[package]
name = "trade-lang-core"
version = "0.1.0"
edition = "2021"
publish = false

[dependencies]
ahash = "0.8"
async-trait = "0.1"
parking_lot = "0.12"
tokio = { version = "1", features = ["rt", "sync"] }
tokio-util = "0.7"
