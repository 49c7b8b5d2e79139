[package]
name = "chat_bridge"
version = "0.1.0"
edition = "2021"
publish = false

[dependencies]
rand = "0.8"
anyhow = "1"
futures = "0.3"
serde = { version = "1", features = ["derive"] }
serde_json = "1"
tokio = { version = "1", features = ["full"] }
omegga = "*"
twilight-gateway = "0.6"
twilight-http = "0.6"
twilight-model = "0.6"
twilight-cache-inmemory = "0.6"
