[package]
name = "herdr-auto-title"
version = "0.1.0"
edition = "2021"
publish = false

[dependencies]
fs2 = "0.4"
serde = { version = "1", features = ["derive"] }
serde_json = "1"
wait-timeout = "0.2"
