[package]
name = "account_sync"
version = "0.1.0"
edition = "2021"
publish = false

[dependencies]
dashmap = "=6.2.1"
extrema_infra = { version = "=0.6.0", features = ["okx", "binance", "model_zmq", "polars"] }
polars = { version = "=0.55.2", default-features = false, features = ["lazy", "rolling_window", "round_series", "rows"] }
reqwest = "=0.13.5"
serde = { version = "=1.0.229", features = ["derive"] }
serde_json = "=1.0.154"
tokio = { version = "=1.54.1", features = ["full"] }
tracing = "=0.1.44"
tracing-subscriber = "=0.3.23"
