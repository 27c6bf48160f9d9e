[package]
name = "matchmaking_bridge"
version = "0.1.0"
edition = "2021"
publish = false

[dependencies]
tokio = { version = "1", features = ["rt-multi-thread"] }
tokio-tungstenite = "0.21"
futures = "0.3"
url = "2"

[dev-dependencies]
prost = "0.12"
