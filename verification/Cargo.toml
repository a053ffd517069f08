[package]
name = "shell"
version = "0.1.0"
edition = "2021"
publish = false

[dependencies]
tokio = { version = "1", features = ["full"] }
bytes = "1"
chrono = "0.4"
dashmap = "6"
bincode = "1"
serde = { version = "1", features = ["derive"] }
serde_json = "1"
toml = "0.8"
anyhow = "1"
thiserror = "1"
tracing = "0.1"
async-trait = "0.1"
futures-util = "0.3"
tokio-util = { version = "0.7", features = ["codec"] }
tokio-tungstenite = "0.24"
