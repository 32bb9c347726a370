[package]
name = "file_cache"
version = "0.1.0"
edition = "2021"
publish = false

[dependencies]
rocket = "0.5"
tokio = { version = "1", features = ["fs", "io-util", "rt", "sync"] }
