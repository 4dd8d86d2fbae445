[package]
name = "wasmcloud_host"
version = "0.1.0"
edition = "2021"
publish = false

[dependencies]
url = "2"
anyhow = "1"
tokio = { version = "1", features = ["rt-multi-thread", "macros", "sync", "fs"] }
redis = { version = "*", features = ["tokio-comp", "connection-manager"] }
