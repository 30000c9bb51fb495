[package]
name = "rs_redis"
version = "0.1.0"
edition = "2021"
publish = false

[dependencies]
hex = "*"
priority-queue = "*"
tokio = { version = "*", features = ["full"] }
clap = "*"
