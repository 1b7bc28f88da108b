[package]
name = "bevy_webcam_facial"
version = "0.1.4"
edition = "2021"
publish = false

[dependencies]
bevy = { version = "0.11", default-features = false }
camera_capture = "*"
crossbeam-channel = "*"
futures-lite = "*"
image = { version = "*", default-features = false }
rustface = "*"
