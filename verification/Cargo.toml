[package]
name = "agentboard"
version = "0.1.0"
edition = "2021"
publish = false

[dependencies]
anyhow = "=1.0.104"
chrono = "=0.4.45"
clap = { version = "=4.6.7", features = ["derive"] }
crossterm = "=0.28.1"
dirs = "=5.0.1"
ratatui = { version = "=0.29.0", features = ["unstable-rendered-line-info"] }
rusqlite = "=0.32.1"
serde = { version = "=1.0.229", features = ["derive"] }
toml = "=0.8.23"
uuid = { version = "=1.29.0", features = ["v4"] }
