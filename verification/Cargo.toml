[package]
name = "trade_orchestrator"
version = "0.1.0"
edition = "2021"
publish = false

[dependencies]
rand = "*"
chrono = "*"
serde = { version = "*", features = ["derive"] }
serde_json = "*"
redis = { version = "*", features = ["tokio-comp"] }
tokio = { version = "*", features = ["rt-multi-thread", "macros", "sync", "time"] }
anyhow = "*"
tracing = "*"
tracing-subscriber = { version = "*", features = ["env-filter"] }
rusqlite = { version = "*", features = ["bundled"] }
