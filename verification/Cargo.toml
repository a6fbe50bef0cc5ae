[package]
name = "redis_client"
version = "0.1.0"
edition = "2021"
publish = false

[dependencies]
anyhow = "*"
atoi = "*"
bytes = "*"
clap = { version = "*", features = ["derive"] }
serde = { version = "*", features = ["derive"] }
serde_json = "*"
tempfile = "*"
thiserror = "*"
tokio = { version = "*", features = ["net", "io-util", "rt-multi-thread", "macros"] }
tracing = "*"
tracing-appender = "*"
tracing-subscriber = { version = "*", features = ["env-filter"] }
ulid = { version = "*", features = ["serde"] }
