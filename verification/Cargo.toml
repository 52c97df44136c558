[package]
name = "kvs"
version = "0.1.0"
edition = "2021"
publish = false

[dependencies]
arc-swap = "1"
clap = { version = "4", features = ["derive"] }
crc32fast = "1"
log = "0.4"
rustyline = "*"
serde_json = "1"
sled = "0.34"
thiserror = "2"
tracing = "0.1"
tracing-subscriber = { version = "0.3", features = ["env-filter"] }
