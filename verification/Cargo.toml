[package]
name = "crater_report"
version = "0.1.0"
edition = "2021"
publish = false

[dependencies]
failure = "0.1"
mime = "0.3"
minifier = { version = "0.2", features = ["html"] }
serde = { version = "1", features = ["derive"] }
serde_json = "1"
