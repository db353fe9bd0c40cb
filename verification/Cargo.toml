[package]
name = "spreader_rs"
version = "0.1.0"
edition = "2021"
publish = false

[dependencies]
anyhow = "*"
flume = "*"
futures = "*"
serde = { version = "*", features = ["derive"] }
serde_json = "*"
serde-this-or-that = "*"
tokio = { version = "*", features = ["rt-multi-thread", "macros", "time", "sync", "signal"] }
tokio-tungstenite = "*"
tracing = "*"
tracing-subscriber = "*"
