[package]
name = "inference_bridge"
version = "0.1.0"
edition = "2021"
publish = false

[dependencies]
serde = { version = "=1.0.229", features = ["derive"] }
serde_json = "=1.0.154"
toml = "=1.1.8"
dirs = "=7.0.0"
chrono = "=0.4.45"
uuid = { version = "=1.29.0", features = ["v4"] }
regex = "=1.13.1"
anyhow = "=1.0.104"
percent-encoding = "=2.3.2"
base64 = "=0.22.1"
zip = { version = "=2.6.1", default-features = false, features = ["deflate"] }
reqwest = { version = "0.12", default-features = false }
