[package]
name = "extrema_guard"
version = "0.1.0"
edition = "2021"
publish = false

[dependencies]
extrema_infra = { version = "=0.6.1", features = ["lob_clients"] }
rustls = "0.23"
serde = { version = "1", features = ["derive"] }
tokio = { version = "1", features = ["full"] }
toml = "1"
tracing = "0.1"
tracing-subscriber = "0.3"
