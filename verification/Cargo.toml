[package]
name = "web3_proxy"
version = "0.1.0"
edition = "2021"
publish = false

[dependencies]
linked-hash-map = "*"
serde = { version = "*", features = ["derive"] }
serde_json = { version = "*", features = ["raw_value"] }
tokio = { version = "*", features = ["rt-multi-thread", "sync", "time", "macros"] }
moka = { version = "*", features = ["future"] }
ahash = "*"
flume = "*"
futures = "*"
anyhow = "*"
argh = "*"
tracing = "*"
