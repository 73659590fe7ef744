[package]
name = "log_stream_gc"
version = "0.1.0"
edition = "2021"
publish = false

[dependencies]
anyhow = "1"
aws-config = "1"
aws-sdk-cloudwatchlogs = "1"
chrono = "0.4"
clap = { version = "4", features = ["derive", "env"] }
futures = "0.3"
lambda_runtime = "1"
log = "0.4"
regex = "1"
serde_json = "1"
tokio = { version = "1", features = ["full"] }
