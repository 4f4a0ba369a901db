[package]
name = "cricket"
version = "0.1.3"
edition = "2021"
publish = false

[dependencies]
uuid = { version = "1", features = ["v4"] }
base64 = "0.22"
hostname = "0.4"
serde = { version = "1", features = ["derive"] }
serde_json = "1"
tokio = { version = "1", features = ["full"] }
reqwest = { version = "0.12", default-features = false, features = ["json", "rustls-tls"] }
axum = "0.8"
keyring = { version = "3", features = ["apple-native", "windows-native", "linux-native"] }
tempfile = "3"
walkdir = "2"
dunce = "1"
