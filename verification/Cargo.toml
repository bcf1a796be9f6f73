[package]
name = "mood"
version = "0.1.0"
edition = "2021"
publish = false

[dependencies]
hex = "0.4"
serde_json = "1"
tokio = { version = "1", features = ["full"] }
reqwest = { version = "*", features = ["json"] }
dtls = "*"
dirs = "*"
keyring = "*"
dotenvy = "*"
rustls = "*"
anyhow = "1"
