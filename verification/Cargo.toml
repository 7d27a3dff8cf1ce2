[package]
name = "polydelta"
version = "0.1.0"
edition = "2021"
publish = false

[dependencies]
chrono = { version = "=0.4.45", features = ["serde"] }
serde = { version = "=1.0.229", features = ["derive"] }
serde_json = "=1.0.154"
anyhow = "=1.0.104"
clap = { version = "=4.6.7", features = ["derive"] }
tokio = { version = "=1.54.1", features = ["full"] }
reqwest = { version = "=0.12.28", default-features = false, features = ["json"] }
axum = "=0.7.9"
tower-http = { version = "=0.5.2", features = ["cors"] }
rusqlite = { version = "=0.31.0", features = ["bundled"] }
tracing = "=0.1.44"
tracing-subscriber = { version = "=0.3.23", features = ["env-filter"] }
futures-util = "=0.3.34"
tokio-tungstenite = "=0.21.0"
url = "=2.5.8"

[dev-dependencies]
regex = "=1.13.1"
