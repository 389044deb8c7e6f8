[package]
name = "failover_proxy"
version = "0.1.0"
edition = "2021"
publish = false

[dependencies]
async-stream = "=0.3.6"
axum = { version = "=0.8.9", default-features = false }
bytes = "=1.12.1"
futures = "=0.3.34"
http = "=1.5.0"
log = "=0.4.35"
serde_json = "=1.0.154"
tokio = { version = "=1.54.1", features = ["sync", "time", "rt", "macros"] }
