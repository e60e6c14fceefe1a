[package]
name = "imagextractor"
version = "0.1.0"
edition = "2021"
publish = false

[dependencies]
chrono = "0.4"
kamadak-exif = "*"

[dev-dependencies]
serde_json = "1"
