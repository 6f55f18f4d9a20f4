[package]
name = "my_redis"
version = "0.1.0"
edition = "2021"
publish = false

[dependencies]
dashmap = "*"
tokio = { version = "*", features = ["full"] }
anyhow = "*"
clap = { version = "*", features = ["derive"] }
