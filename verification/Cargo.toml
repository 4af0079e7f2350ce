[package]
name = "ottotom"
version = "0.1.0"
edition = "2021"
publish = false

[dependencies]
opentelemetry = "*"
opentelemetry_sdk = "*"
tokio = { version = "*", features = ["sync"] }
ryu = "*"

[dev-dependencies]
openmetrics-parser = "*"
