[package]
name = "desync_fingerprint"
version = "0.1.0"
edition = "2021"
publish = false

[dependencies]
crc = "3"
serde_json = "1"
serde = { version = "1", features = ["derive"] }
bevy_app = "0.13"
bevy_ecs = "0.13"
