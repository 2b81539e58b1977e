[package]
name = "chat_core"
version = "0.1.0"
edition = "2021"
publish = false

[dependencies]
tokio = { version = "1", features = ["sync", "rt-multi-thread", "macros", "time", "net"] }
serde_json = "1"
chrono = "0.4"
axum = { version = "0.8", features = ["ws"] }
serde = { version = "1", features = ["derive"] }
