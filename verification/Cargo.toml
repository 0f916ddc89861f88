[package]
name = "sigv4_proxy"
version = "0.1.0"
edition = "2021"
publish = false

[dependencies]
hmac = "0.12"
sha2 = "0.10"
anyhow = "1"
futures = "0.3"
url = "2"
tracing = "0.1"
axum = "*"
tokio = { version = "1", features = ["rt-multi-thread", "net", "signal", "macros"] }
tower = { version = "*", features = ["buffer", "timeout"] }
reqwest = { version = "*", default-features = false, features = ["stream"] }
