[package]
name = "gas_saver_eth"
version = "0.1.0"
edition = "2021"
publish = false

[dependencies]
dashmap = "*"
borsh = { version = "*", features = ["derive"] }
tokio = { version = "*", features = ["sync", "rt", "rt-multi-thread", "time", "macros"] }
tracing = "*"
tracing-subscriber = "*"
anyhow = "*"
