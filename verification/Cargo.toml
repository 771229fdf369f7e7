[package]
name = "s6_hcs"
version = "0.1.0"
edition = "2021"
publish = false

[dependencies]
num-bigint = { version = "=0.4.8", features = ["rand", "serde"] }
num-integer = "=0.1.47"
num-traits = "=0.2.19"
rand = "=0.8.8"
serde = { version = "=1.0.229", features = ["derive"] }
serde_json = "=1.0.151"
websocket = { version = "=0.27.1", default-features = false, features = ["sync"] }
