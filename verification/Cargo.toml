[package]
name = "room_broker"
version = "0.1.0"
edition = "2021"
publish = false

[dependencies]
futures-channel = "*"
futures-util = "*"
tokio = { version = "*", features = ["macros", "rt-multi-thread", "net", "io-std", "io-util"] }
tokio-tungstenite = "*"
url = "*"
