[package]
name = "node-bridge"
version = "1.3.3"
edition = "2021"
publish = false

[dependencies]
chrono = "0.4"
encoding_rs = "0.8"
serde_json = "1"
