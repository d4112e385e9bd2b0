[package]
name = "bt_player"
version = "0.1.0"
edition = "2021"
publish = false

[dependencies]
regex = "=1.13.1"
scraper = "=0.29.0"
url = "=2.5.8"
urlencoding = "=2.1.3"
serde = { version = "=1.0.229", features = ["derive"] }
serde_json = "=1.0.154"
axum = "=0.8.9"
tokio = { version = "=1.54.1", features = ["full"] }
tokio-util = "=0.7.20"
tower-http = { version = "=0.7.1", features = ["cors"] }
tracing = "=0.1.44"
tracing-subscriber = { version = "=0.3.23", features = ["env-filter"] }
reqwest = { version = "=0.12.28", default-features = false, features = ["json", "rustls-tls"] }
rusqlite = { version = "=0.41.1", features = ["bundled"] }
chrono = "=0.4.45"
anyhow = "=1.0.104"
librqbit = { version = "=9.1.0", features = ["http-api", "tracing-subscriber-utils"] }
librqbit-dualstack-sockets = "=0.7.0"
