[package]
name = "gbt_stream_service"
version = "0.1.0"
edition = "2021"
publish = false

[dependencies]
anyhow = "=1.0.104"
clap = { version = "=4.6.7", features = ["derive"] }
local-ip-address = "=0.6.13"
prost = "0.14"
rtp = "=0.17.2"
serde = { version = "=1.0.229", features = ["derive"] }
serde_yaml = "=0.9.34"
time = { version = "=0.3.55", features = ["macros"] }
tokio = { version = "=1.54.1", features = ["full"] }
tonic = "=0.14.6"
tonic-prost = "0.14"
tracing = "=0.1.44"
tracing-appender = "=0.2.5"
tracing-subscriber = { version = "=0.3.23", features = ["time"] }
webrtc-util = "=0.17.2"
