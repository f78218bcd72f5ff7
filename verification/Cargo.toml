[package]
name = "tracker"
version = "0.1.0"
edition = "2021"
publish = false

[dependencies]
tokio = { version = "*", features = ["rt-multi-thread", "macros", "net", "io-util", "sync", "time", "fs"] }
bitcoincore-rpc = "*"
clap = { version = "*", features = ["derive"] }
tokio-socks = "*"
tracing = "*"
tracing-subscriber = "*"

[dev-dependencies]
serde_cbor = "*"
