[package]
name = "session_core"
version = "0.1.0"
edition = "2021"
publish = false

[dependencies]
serde = { version = "1", features = ["derive"] }
serde_json = "1"
portable-pty = "*"
tauri = { version = "2", default-features = false }
