[package]
name = "chat_sse"
version = "0.1.0"
edition = "2021"
publish = false

[dependencies]
eventsource-stream = "0.2"
futures = "0.3"
serde = { version = "1", features = ["derive"] }
serde_json = "1"
tokio = { version = "1", features = ["sync", "time", "rt", "macros"] }
tracing = "0.1"
