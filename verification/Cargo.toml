[package]
name = "proxy_manager"
version = "0.1.0"
edition = "2021"
publish = false

[dependencies]
dirs = "=7.0.0"
serde = { version = "=1.0.229", features = ["derive"] }
serde_json = "=1.0.154"
tauri = { version = "2", default-features = false, features = ["wry", "tray-icon"] }
winreg = "=0.56.0"
