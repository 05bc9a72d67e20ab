[package]
name = "mqtt_broker"
version = "0.1.0"
edition = "2021"
publish = false

[dependencies]
chrono = "0.4"
dashmap = "5"
rand = "0.8"
tokio = { version = "1", features = ["rt-multi-thread", "macros", "net", "sync", "time", "io-util"] }
tokio-util = { version = "0.7", features = ["codec"] }
tokio-stream = "0.1"
futures = "0.3"
bytes = "1"
async-trait = "0.1"
