[package]
name = "dockui"
version = "0.1.0"
edition = "2021"
publish = false

[dependencies]
anyhow = "1"
bollard = "0.18"
chrono = "0.4"
futures-util = "0.3"
ratatui = "0.30"
regex = "1"
serde = { version = "1", features = ["derive"] }
serde_json = "1"
serde_yaml = "0.9"
tar = "0.4"
tokio = { version = "1", features = ["full"] }
unicode-width = "0.2"

[dev-dependencies]
bytes = "1"
