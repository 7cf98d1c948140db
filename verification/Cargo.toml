[package]
name = "varo"
version = "0.1.0"
edition = "2021"
publish = false

[dependencies]
serde_json = "=1.0.154"
blake3 = { version = "=1.8.7", features = ["pure"] }
base64 = "=0.22.1"
serde = { version = "=1.0.229", features = ["derive"] }
dirs = "=5.0.1"
tokio = { version = "=1.54.1", features = ["sync"] }
tauri = { version = "2", default-features = false }
