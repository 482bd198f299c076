[package]
name = "screen_stream"
version = "0.1.0"
edition = "2021"
publish = false

[dependencies]
tokio = { version = "=1.53.2", features = ["macros", "rt-multi-thread", "time", "sync", "net"] }
tokio-tungstenite = "=0.30.0"
futures-util = "=0.3.34"
serde = { version = "=1.0.229", features = ["derive"] }
serde_json = "=1.0.151"
clap = { version = "=4.6.7", features = ["derive"] }
bytes = "=1.12.1"
webrtc = "=0.11.0"
