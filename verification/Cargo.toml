[package]
name = "backtest_engine"
version = "0.1.0"
edition = "2021"
publish = false

[dependencies]
base64 = "=0.22.1"
chrono = { version = "=0.4.45", features = ["serde"] }
rand = "=0.9.5"
serde = { version = "=1.0.229", features = ["derive"] }
axum = "=0.7.9"
tokio = { version = "=1.54.1", features = ["full"] }
dotenvy = "=0.15.7"
wasmtime = "=44.0.3"
