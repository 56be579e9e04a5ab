[package]
name = "downloader_core"
version = "0.1.0"
edition = "2021"
publish = false

[dependencies]
bytes = "1"
chrono = { version = "0.4", features = ["serde"] }
h264-reader = "0.7"
mp4 = "0.14"
serde = { version = "1", features = ["derive"] }

[dev-dependencies]
serde_json = "1"
