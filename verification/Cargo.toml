[package]
name = "blemacd"
version = "0.1.0"
edition = "2021"
publish = false

[dependencies]
async-channel = "1"
async-std = { version = "1", features = ["attributes", "unstable"] }
core_bluetooth = "0.1"
env_logger = "0.9"
futures = "0.3"
hex = "0.4"
humantime = "2"
log = "0.4"
pin-project-lite = "0.2"
postage = { version = "0.5", features = ["futures-traits"] }
regex = "1"
uuid = { version = "0.8", features = ["v4"] }
