[package]
name = "bnri-cosmic"
version = "0.1.0"
edition = "2021"
publish = false

[dependencies]
chrono = "0.4"
serde = { version = "1", features = ["derive"] }
serde_json = "1"
tokio = { version = "1", features = ["process", "io-util", "sync", "time", "rt-multi-thread", "macros"] }
image = { version = "0.25", default-features = false }
tracing-subscriber = "0.3"
ethers = { version = "2", default-features = false }
