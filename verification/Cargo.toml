[package]
name = "cloudflare-dyndns"
version = "0.1.0"
edition = "2021"
publish = false

[dependencies]
humantime-serde = "1"
anyhow = "1"
axum = "0.8"
clap = { version = "4", features = ["derive"] }
prometheus = "*"
serde = { version = "1", features = ["derive"] }
serde_json = "1"
serde_qs = { version = "*", features = ["axum"] }
serde_yaml = "0.9"
serde_yml = "*"
shellexpand = "3"
thiserror = "2"
tokio = { version = "1", features = ["full"] }
tokio-native-tls = "0.3"
tracing = "0.1"
tracing-subscriber = { version = "0.3", features = ["env-filter"] }
reqwest = { version = "0.12", features = ["json"] }
