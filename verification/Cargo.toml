[package]
name = "session_bridge"
version = "0.1.0"
edition = "2021"
publish = false

[dependencies]
anyhow = "=1.0.104"
calloop = "=0.14.5"
rustix = "=1.1.5"
sendfd = "=0.4.5"
tracing = "=0.1.44"
tracing-subscriber = "=0.3.23"

[dev-dependencies]
serde_json = "*"
