[package]
name = "punchy"
version = "0.1.0"
edition = "2021"
publish = false

[dependencies]
rand = "0.8"
serde = { version = "1", features = ["derive"] }
serde_yaml = "0.9"
structopt = "0.3"
bevy = { version = "0.9", default-features = false }
