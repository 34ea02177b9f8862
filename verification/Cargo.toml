[package]
name = "networking"
version = "0.1.0"
edition = "2021"
publish = false

[dependencies]
futures-util = { version = "0.3", features = ["sink"] }
serde = { version = "1", features = ["derive"] }
serde_json = "1"
tokio = { version = "1", features = ["macros", "rt-multi-thread", "net", "sync", "io-util", "io-std"] }
tokio-tungstenite = "*"
uuid = { version = "1", features = ["v4"] }
