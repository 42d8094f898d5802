[package]
name = "mirror_select"
version = "0.1.0"
edition = "2021"
publish = false

[dependencies]
url = "2"
futures = "0.3"
tokio = { version = "1", features = ["rt-multi-thread", "sync", "time"] }
reqwest = { version = "0.12", default-features = false }
