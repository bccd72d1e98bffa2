[package]
name = "orderbook_aggregator"
version = "0.1.0"
edition = "2021"
publish = false

[dependencies]
async-stream = "=0.3.6"
clap = { version = "=4.6.7", features = ["derive"] }
env_logger = "=0.11.11"
futures = "=0.3.34"
log = "=0.4.34"
prost = "0.14"
rust_decimal = "=1.43.0"
serde = { version = "1", features = ["derive"] }
serde_json = "1"
tokio = { version = "=1.53.2", features = ["full"] }
tokio-tungstenite = "=0.30.0"
tonic = "0.14"
tonic-prost = "0.14"
tungstenite = "=0.30.0"
