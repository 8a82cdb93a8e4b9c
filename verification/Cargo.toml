[package]
name = "scion_router_proto"
version = "0.1.0"
edition = "2021"
publish = false

[dependencies]
anyhow = "=1.0.104"
axum = "=0.7.9"
chrono = "0.4"
clap = { version = "=4.6.7", features = ["derive"] }
dashmap = "=6.2.1"
serde = { version = "=1.0.229", features = ["derive"] }
serde_json = "=1.0.154"
slogger = "=0.1.2"
tokio = { version = "=1.54.1", features = ["full"] }
tracing = "=0.1.44"
