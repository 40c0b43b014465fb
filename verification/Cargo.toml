[package]
name = "sidekiq_stats"
version = "0.1.0"
edition = "2021"
publish = false

[dependencies]
bb8 = "=0.9.1"
chrono = "=0.4.45"
hex = "=0.4.3"
libc = "=0.2.191"
rand = "=0.9.5"
redis = { version = "=1.8.1", features = ["bb8", "tokio-comp"] }
serde = { version = "=1.0.229", features = ["derive"] }
serde_json = "=1.0.154"
