[package]
name = "gitapi"
version = "0.1.0"
edition = "2021"
publish = false

[dependencies]
base64 = "=0.23.1"
actix-web = "=4.15.0"
actix-cors = "=0.7.2"
actix-web-httpauth = "=0.8.3"
tokio = { version = "=1.53.2", features = ["sync"] }
serde = { version = "=1.0.229", features = ["derive"] }
serde_json = "=1.0.151"
env_logger = "=0.11.11"
jwt = "=0.16.0"
hmac = "=0.12.1"
sha2 = "=0.10.9"
uuid = "=1.27.0"
