[package]
name = "neuralnet"
version = "0.1.0"
edition = "2021"
publish = false

[dependencies]
csv = "=1.4.0"
libp2p = { version = "=0.57.1", default-features = false }
serde = { version = "=1.0.229", features = ["derive"] }
serde_json = "=1.0.154"
uuid = { version = "=1.29.0", features = ["v7", "serde"] }
