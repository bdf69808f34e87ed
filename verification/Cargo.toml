[package]
name = "seatlease"
version = "0.1.0"
edition = "2021"
publish = false

[dependencies]
uuid = { version = "1", features = ["v4"] }
actix = "0.13"
actix-web = "4"
actix-web-actors = "4.3"
actix-cors = "0.7"
tokio = { version = "1", features = ["macros", "rt", "time"] }
serde = { version = "1", features = ["derive"] }
serde_json = "1"
rand = "0.8"
log = "0.4"
env_logger = "0.11"
