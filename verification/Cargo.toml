[package]
name = "cryptotrace"
version = "0.1.0"
edition = "2021"
publish = false

[dependencies]
base64 = "0.22"
axum = "0.7"
tokio = { version = "1", features = ["rt", "rt-multi-thread", "sync", "time", "macros"] }
serde = { version = "1", features = ["derive"] }
serde_json = "1"
tracing = "0.1"
libc = "0.2"
