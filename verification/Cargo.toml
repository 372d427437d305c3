[package]
name = "nono_proxy"
version = "0.1.0"
edition = "2021"
publish = false

[dependencies]
nono = { version = "=0.55.0", default-features = false }
serde = { version = "=1.0.229", features = ["derive"] }
serde_json = "=1.0.154"
tokio = { version = "=1.54.1", features = ["rt", "rt-multi-thread", "net", "sync", "time", "macros"] }
tracing = "=0.1.44"
