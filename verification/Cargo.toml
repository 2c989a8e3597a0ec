[package]
name = "wsproxy"
version = "0.1.0"
edition = "2021"
publish = false

[dependencies]
base64 = "0.22"
rand = "0.8"
semver = "1"
uuid = { version = "1", features = ["v4"] }
async-std = "1"
async-tungstenite = { version = "*", features = ["async-std-runtime"] }
futures = "0.3"
futures-util = "0.3"
clap = { version = "4", features = ["derive"] }
