[package]
name = "secure_sum"
version = "0.1.0"
edition = "2021"
publish = false

[dependencies]
bincode = "1"
rand = "0.8"
tokio = { version = "1", features = ["rt-multi-thread", "net", "time", "macros", "io-util"] }
log = "0.4"
env_logger = "0.10"
