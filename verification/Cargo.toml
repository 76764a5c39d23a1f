[package]
name = "giftlist"
version = "0.1.0"
edition = "2021"
publish = false

[dependencies]
pbkdf2 = "0.12"
sha1 = "0.10"
rand = "0.8"
uuid = { version = "1", features = ["v4"] }
chrono = "0.4"
axum = "0.8"
tokio = { version = "1", features = ["rt-multi-thread", "macros", "net"] }
serde = { version = "1", features = ["derive"] }
serde_json = "1"
clap = { version = "4", features = ["derive"] }
jsonwebtoken = "9"
rsa = "0.9"
tower-cookies = "*"
