[package]
name = "chat_broker"
version = "0.1.0"
edition = "2021"
publish = false

[dependencies]
actix = "0.10"
actix-broker = "0.3"
actix-files = "0.3"
actix-rt = "1"
actix-web = "3"
actix-web-actors = "3"
env_logger = "0.7"
log = "0.4"
rand = "0.7"
serde = { version = "1", features = ["derive"] }
serde_json = "1"
