[package]
name = "voice2text"
version = "0.1.0"
edition = "2021"
publish = false

[dependencies]
anyhow = "1"
arboard = "3"
cpal = "0.15"
env_logger = "0.11"
hound = "3.5"
serde = { version = "1", features = ["derive"] }
serde_json = "1"
