[package]
name = "aggregator"
version = "0.1.0"
edition = "2021"
publish = false

[dependencies]
async-std = "1"
chrono = { version = "0.4", features = ["serde"] }
lazy_static = "1"
pdatastructs = "0.7"
serde_json = "1"
