[package]
name = "reversi"
version = "0.1.0"
edition = "2021"
publish = false

[dependencies]
serde_json = { version = "=1.0.154", features = ["preserve_order"] }
uuid = { version = "=1.29.0", features = ["v4"] }
actix = "=0.13.5"
actix-web = { version = "=4.18.1", default-features = false, features = ["macros", "ws"] }
actix-web-actors = "=4.3.1"
actix-cors = "=0.7.2"
chrono = "=0.4.45"
env_logger = "=0.11.11"
lazy_static = "=1.5.1"
tokio = { version = "=1.54.1", features = ["rt", "sync", "macros"] }
futures-util = "=0.3.34"
tokio-tungstenite = "=0.30.0"
anyhow = "=1.0.104"
