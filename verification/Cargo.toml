[package]
name = "http_core"
version = "0.1.0"
edition = "2021"
publish = false

[dependencies]
flate2 = "1"
tokio = { version = "1", features = ["rt-multi-thread", "net", "io-util", "fs", "macros"] }
anyhow = "1"
