[package]
name = "content_sync"
version = "0.1.0"
edition = "2021"
publish = false

[dependencies]
anyhow = "=1.0.104"
async-openai = { version = "=0.42.2", features = ["chat-completion"] }
aws-sdk-sesv2 = "=1.140.1"
blake3 = { version = "=1.8.7", features = ["pure"] }
chrono = { version = "=0.4.45", features = ["serde"] }
regex = "=1.13.1"
rust_decimal = { version = "=1.43.0", features = ["serde"] }
serde = { version = "=1.0.229", features = ["derive"] }
serde_json = "=1.0.154"
uuid = { version = "=1.29.0", features = ["v4", "serde"] }
