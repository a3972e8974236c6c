[package]
name = "diwa"
version = "0.5.0"
edition = "2021"
publish = false

[dependencies]
anyhow = "=1.0.104"
chrono = "=0.4.45"
clap = { version = "=4.6.7", features = ["derive"] }
crossterm = "=0.28.1"
fastembed = { version = "=4.9.1", default-features = false, features = ["hf-hub-rustls-tls", "ort-load-dynamic"] }
libc = "=0.2.191"
notify = "=7.0.0"
ratatui = "=0.29.0"
rusqlite = { version = "=0.32.1", features = ["bundled"] }
serde = { version = "=1.0.229", features = ["derive"] }
serde_json = "=1.0.154"
