[package]
name = "matching"
version = "0.1.0"
edition = "2021"
publish = false

[dependencies]
uuid = { version = "=1.27.0", features = ["v4"] }
solana-pubkey = "=2.4.0"
spl-associated-token-account-client = "=2.0.0"
tokio = { version = "=1.53.2", features = ["rt-multi-thread", "sync", "macros"] }
axum = "=0.8.9"
serde = { version = "=1.0.229", features = ["derive"] }
serde_json = "=1.0.151"
