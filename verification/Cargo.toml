[package]
name = "mini_redis"
version = "0.1.0"
edition = "2021"
publish = false

[dependencies]
atoi = "=2.0.0"
bytes = "=1.12.1"
tokio = { version = "=1.54.1", features = ["full"] }
tokio-stream = { version = "=0.1.19", features = ["sync"] }
async-stream = "=0.3.6"
tracing = "=0.1.44"
tracing-subscriber = "=0.3.23"
structopt = "=0.3.26"
