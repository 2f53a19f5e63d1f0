[package]
name = "peerlink"
version = "0.1.0"
edition = "2021"
publish = false

[dependencies]
rand = "=0.8.8"
uuid = { version = "=1.29.0", features = ["v4"] }
serde = { version = "=1.0.229", features = ["derive"] }
serde_json = "=1.0.154"
walkdir = "=2.5.0"
dirs = "=5.0.1"
anyhow = "=1.0.104"
tokio = { version = "=1.54.1", features = ["full"] }
axum = { version = "=0.7.9", features = ["ws"] }
tower-http = { version = "=0.5.2", features = ["cors"] }
futures-util = "=0.3.34"
enigo = { version = "=0.2.1", default-features = false, features = ["x11rb"] }
