[package]
name = "server"
version = "0.1.0"
edition = "2021"
publish = false

[dependencies]
actix-cors = "*"
actix-web = "*"
chrono = "0.4"
env_logger = "0.10"
log = "0.4"
serde = { version = "1", features = ["derive"] }
