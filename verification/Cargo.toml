[package]
name = "mic_capture"
version = "0.1.0"
edition = "2021"
publish = false

[dependencies]
base64 = "*"
cpal = "*"
serde = { version = "*", features = ["derive"] }

[dev-dependencies]
hound = "*"
