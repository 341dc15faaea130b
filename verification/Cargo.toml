[package]
name = "novasdr_server"
version = "0.1.0"
edition = "2021"
publish = false

[dependencies]
anyhow = "1"
axum = "0.8"
tokio = { version = "1", features = ["rt-multi-thread", "macros", "net", "time", "sync", "signal"] }
tower-http = { version = "0.6", features = ["compression-gzip", "fs"] }
tracing = "0.1"
serde_json = "1"
num-complex = "0.4"
