[package]
name = "discovery-node"
version = "0.1.0"
edition = "2021"
publish = false

[dependencies]
anyhow = "1"
axum = "0.8"
base64 = "=0.22.1"
chrono = { version = "=0.4.45", features = ["serde"] }
jieba-rs = "=0.7.4"
oan-core = "=0.1.0"
oan-crypto = "=0.1.0"
oan-package = "=0.1.0"
oan-protocol = "=0.1.0"
oan-semantic-recommender = "=1.1.1"
oan-storage = "=0.1.0"
reqwest = { version = "0.12", default-features = false, features = ["json"] }
serde = { version = "=1.0.229", features = ["derive"] }
serde_json = "=1.0.154"
sqlx = { version = "=0.8.6", default-features = false, features = ["runtime-tokio", "postgres", "sqlite", "chrono", "json"] }
tokio = { version = "1", features = ["rt-multi-thread", "macros", "sync", "time", "net", "signal"] }
toml = "0.8"
tower-http = { version = "0.6", features = ["cors"] }
url = "=2.5.8"
