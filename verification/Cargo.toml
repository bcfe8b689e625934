[package]
name = "hirkn"
version = "0.1.0"
edition = "2021"
publish = false

[dependencies]
anyhow = "1"
async-trait = "0.1"
chrono = "0.4"
clap = { version = "4", features = ["derive"] }
either = { version = "1", features = ["serde"] }
ipnet = "2"
job_scheduler_ng = "*"
log = { version = "0.4", features = ["serde"] }
nftables = "*"
reqwest = "*"
serde = { version = "1", features = ["derive"] }
serde_yaml = "0.9"
simple_logger = "*"
tokio = { version = "1", features = ["rt-multi-thread", "macros", "sync", "time"] }
tokio-shutdown = "*"
url = { version = "2", features = ["serde"] }
