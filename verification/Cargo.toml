[package]
name = "homestar_runtime"
version = "0.1.0"
edition = "2021"
publish = false

[dependencies]
anyhow = "=1.0.104"
dashmap = "=5.5.3"
futures = "=0.3.34"
indexmap = "=2.14.2"
jsonrpsee = { version = "=0.20.4", features = ["server"] }
metrics-exporter-prometheus = { version = "=0.12.2", default-features = false }
serde = { version = "1", features = ["derive"] }
serde_json = "=1.0.151"
tokio = { version = "=1.53.2", features = ["rt-multi-thread", "sync", "time", "macros"] }
tokio-stream = { version = "=0.1.19", features = ["sync"] }
tracing = "=0.1.44"
