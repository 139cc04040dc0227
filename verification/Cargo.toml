[package]
name = "quest_tracker"
version = "0.1.0"
edition = "2021"
publish = false

[dependencies]
anyhow = "*"
argon2 = "*"
axum = "*"
axum-extra = { version = "*", features = ["cookie"] }
chrono = "*"
cookie = "*"
hmac = "*"
serde = { version = "*", features = ["derive"] }
serde_json = "*"
sha2 = "*"
tokio = { version = "*", features = ["full"] }
tracing = "*"
tracing-subscriber = "*"

[dev-dependencies]
base64 = "*"
jsonwebtoken = "9"
