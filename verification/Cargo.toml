[package]
name = "repeater"
version = "0.1.0"
edition = "2021"
publish = false

[dependencies]
clap = "2"
error-chain = "0.12"
futures = "0.3"
futures-util = "0.3"
http = "0.2"
log = "0.4"
nix = "0.17"
pretty_env_logger = "0.4"
tempfile = "3"
tokio = { version = "0.2", features = ["full"] }
tokio-tungstenite = "0.10"
tungstenite = "0.10"
url = "2"
uuid = { version = "0.8", features = ["v4"] }
