[package]
name = "infer_queue"
version = "0.1.0"
edition = "2021"
publish = false

[dependencies]
flume = "*"
tokio = { version = "*", features = ["sync", "time", "rt"] }
metrics = "*"
tracing = "*"
