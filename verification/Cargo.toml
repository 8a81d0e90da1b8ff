[package]
name = "flood_rust"
version = "0.1.0"
edition = "2021"
publish = false

[dependencies]
hdrhistogram = { version = "=7.6.0", default-features = false }
parse_duration = "=2.1.1"
chrono = "=0.4.45"
serde = { version = "=1.0.229", features = ["derive"] }
serde_json = "=1.0.151"
clap = { version = "=4.6.7", features = ["derive"] }
tokio = { version = "=1.53.2", features = ["rt-multi-thread", "macros", "time", "sync"] }
try-lock = "=0.2.5"
alloy-json-rpc = "=2.5.0"
alloy-rpc-client = "=2.5.0"
alloy-transport = "=2.5.0"
url = "=2.5.8"
