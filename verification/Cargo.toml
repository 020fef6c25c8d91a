[package]
name = "vela"
version = "0.1.0"
edition = "2021"
publish = false

[dependencies]
serde = { version = "=1.0.229", features = ["derive"] }
serde_json = "=1.0.154"
tokio = { version = "=1.54.1", features = ["full"] }
rusqlite = { version = "=0.41.1", features = ["bundled"] }
tracing = "=0.1.44"
agent-client-protocol = { version = "=5.0.0", features = ["process"] }
async-process = "=2.5.0"
futures = "=0.3.34"
rustix = { version = "=1.1.6", features = ["process"] }
