[package]
name = "streamdata"
version = "0.1.0"
edition = "2021"
publish = false

[dependencies]
async-std = "1"
async-stream = "=0.3.6"
bytes = "=1.12.1"
futures-core = "=0.3.34"
futures-io = "=0.3.34"
futures-util = { version = "=0.3.34", features = ["io"] }
http-body = "0.4"
k8s-openapi = { version = "=0.18.0", features = ["v1_24"] }
quinn = { version = "0.11", default-features = false }
serde = "=1.0.229"
serde_json = "=1.0.154"
thiserror = "=1.0.69"
tokio = { version = "=1.54.1", features = ["io-util"] }
tokio-util = { version = "=0.7.20", features = ["codec"] }

[dev-dependencies]
rand = "=0.8.8"
