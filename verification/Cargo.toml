[package]
name = "kv_metrics"
version = "0.1.0"
edition = "2021"
publish = false

[dependencies]
axum = "*"
tokio = { version = "*", features = ["rt-multi-thread", "net", "time", "macros"] }
tracing = "*"
tracing-subscriber = { version = "*", features = ["fmt"] }
