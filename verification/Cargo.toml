[package]
name = "yoik"
version = "0.1.0"
edition = "2021"
publish = false

[dependencies]
url = "2"
axum = "0.8"
tokio = { version = "1", features = ["macros", "rt-multi-thread", "process", "fs", "net"] }
reqwest = { version = "0.12", default-features = false, features = ["json", "rustls-tls"] }
serde = { version = "1", features = ["derive"] }
log = "0.4"
env_logger = "0.11"
dotenvy = "0.15"
