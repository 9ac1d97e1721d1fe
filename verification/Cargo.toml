[package]
name = "chat_core"
version = "0.1.0"
edition = "2021"
publish = false

[dependencies]
image = "0.24"
slug = "0.1"
heck = "0.4"
tokio = { version = "1", features = ["full"] }
chrono = "0.4"
rand = "0.8"
anyhow = "1"
