[package]
name = "chat_core"
version = "0.1.0"
edition = "2021"
publish = false

[dependencies]
unicode-width = "=0.1.14"
uuid = { version = "=1.29.0", features = ["serde"] }
anyhow = "=1.0.104"
chrono = { version = "=0.4.45", features = ["serde"] }
crossterm = "=0.29.0"
derivative = "=2.2.0"
log = "=0.4.34"
notify-rust = "=4.18.2"
serde = { version = "=1.0.229", features = ["derive"] }
serde_json = "=1.0.154"
tokio = { version = "=1.54.1", features = ["rt", "sync"] }
