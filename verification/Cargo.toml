[package]
name = "zap_tracker"
version = "0.1.0"
edition = "2021"
publish = false

[dependencies]
anyhow = "*"
axum = "*"
config = { version = "*", default-features = false }
dotenvy = "*"
env_logger = "*"
lightning-invoice = "*"
log = "*"
maud = { version = "*", features = ["axum"] }
nostr-sdk = "*"
rss = "*"
serde = { version = "*", features = ["derive"] }
time = { version = "*", features = ["std", "formatting"] }
tokio = { version = "*", features = ["full"] }
tower-http = { version = "*", features = ["cors", "normalize-path", "fs"] }
uuid = { version = "*", features = ["v4"] }
