[package]
name = "chat_core"
version = "0.1.0"
edition = "2021"
publish = false

[dependencies]
bevy = { version = "=0.19.1", default-features = false }
bevy_quinnet = { version = "=0.21.0", features = ["bincode-messages"] }
rand = "=0.10.3"
serde = { version = "=1.0.229", features = ["derive"] }
