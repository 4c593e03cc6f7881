[package]
name = "cardvault"
version = "0.1.0"
edition = "2021"
publish = false

[dependencies]
anyhow = "*"
axum = { version = "*", features = ["multipart"] }
clap = { version = "*", features = ["derive", "env"] }
mime_guess = "*"
rusqlite = { version = "*", features = ["bundled"] }
serde = { version = "*", features = ["derive"] }
serde_json = "*"
tokio = { version = "*", features = ["full"] }
tower-http = { version = "*", features = ["cors", "fs"] }
tracing = "*"
tracing-subscriber = { version = "*", features = ["env-filter"] }
