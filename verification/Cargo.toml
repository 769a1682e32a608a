[package]
name = "chat_app"
version = "0.1.0"
edition = "2021"
publish = false

[dependencies]
axum = "*"
axum-auth = "*"
hyper = "1"
tokio = { version = "1", features = ["full"] }
serde = { version = "1", features = ["derive"] }
serde_json = "1"
uuid = { version = "1", features = ["v4"] }
log = "0.4"
env_logger = "*"
tracing = "0.1"
reqwest = { version = "0.12", default-features = false, features = ["json"] }
