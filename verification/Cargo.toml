[package]
name = "newsletter_core"
version = "0.1.0"
edition = "2021"
publish = false

[dependencies]
validator = "0.18"
unicode-segmentation = "1"
rand = "0.8"
uuid = { version = "1", features = ["v4"] }
argon2 = "0.5"
base64 = "0.22"
