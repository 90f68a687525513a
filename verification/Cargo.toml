[package]
name = "clawgate"
version = "0.1.0"
edition = "2021"
publish = false

[dependencies]
rustc-hash = "2"
ipnetwork = "*"
jsonwebtoken = "9"
uuid = { version = "1", features = ["v4"] }
rand = "0.10"
dashmap = "6"
serde = { version = "1", features = ["derive"] }
serde_json = "1"
serde_yaml = "0.9"
tokio = { version = "1", features = ["rt-multi-thread", "macros", "sync", "time", "fs", "io-util", "net"] }
axum = "0.8"
axum-server = { version = "0.7", default-features = false, features = ["tls-rustls-no-provider"] }
reqwest = { version = "0.12", default-features = false, features = ["http2"] }
tower = { version = "0.5", features = ["buffer", "limit", "util"] }
tower-http = { version = "0.6", features = ["trace"] }
tracing-subscriber = { version = "0.3", default-features = false, features = ["fmt", "std"] }
notify = { version = "8", default-features = false }
chrono = { version = "0.4", default-features = false, features = ["clock"] }
metrics = "0.24"
metrics-exporter-prometheus = { version = "*", default-features = false }
arc-swap = "1"
ratatui = "0.29"
crossterm = "0.28"
chitchat = "*"
etcd-client = "*"
sqlx = { version = "0.8", default-features = false, features = ["sqlite", "runtime-tokio", "macros", "derive"] }
