[package]
name = "rebalance"
version = "0.1.0"
edition = "2021"
publish = false

[dependencies]
anyhow = "=1.0.104"
apca = "=0.28.0"
chrono = { version = "=0.4.45", features = ["serde"] }
chrono-tz = "=0.10.4"
num-decimal = { version = "=0.2.5", default-features = false, features = ["num-v04"] }
serde = { version = "=1.0.229", features = ["derive"] }
serde_json = "=1.0.154"
tokio = { version = "=1.54.1", features = ["macros", "rt-multi-thread", "time"] }
