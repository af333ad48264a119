[package]
name = "proxy_twister"
version = "0.1.0"
edition = "2021"
publish = false

[dependencies]
regex = "1"
base64 = "0.22"
tokio = { version = "1", features = ["full"] }
tokio-util = "0.7"
notify = "*"
serde = { version = "1", features = ["derive"] }
serde_json = "1"
clap = { version = "4", features = ["derive"] }
tracing = "0.1"
tracing-subscriber = "0.3"
