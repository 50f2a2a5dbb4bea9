[package]
name = "ltp_dashboard"
version = "0.1.0"
edition = "2021"
publish = false

[dependencies]
anyhow = "1"
axum = "*"
chrono = "0.4"
clap = { version = "4", features = ["derive"] }
futures = "0.3"
isahc = "1"
minijinja = "2"
regex = "1"
serde = { version = "1", features = ["derive"] }
serde_json = "1"
tokio = { version = "1", features = ["full"] }
toml = "*"
tower-http = { version = "*", features = ["compression-gzip"] }
