[package]
name = "monero_web_coordinator"
version = "0.1.0"
edition = "2021"
publish = false

[dependencies]
uuid = { version = "*", features = ["v4"] }
randomx-rs = "*"
serde = { version = "*", features = ["derive"] }
serde_json = "*"
tokio = { version = "*", features = ["full"] }
axum = { version = "*", features = ["ws"] }
tower-http = { version = "*", features = ["cors", "trace"] }
reqwest = { version = "*", default-features = false, features = ["json"] }
toml = "*"
tracing = "*"
tracing-subscriber = { version = "*", features = ["env-filter"] }
anyhow = "*"
