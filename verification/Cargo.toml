[package]
name = "shiritori"
version = "0.1.0"
edition = "2021"
publish = false

[dependencies]
edit-distance = "*"
serde = { version = "*", features = ["derive"] }
serde_json = "*"
reqwest = { version = "*", default-features = false, features = ["json"] }
tokio = { version = "*", features = ["rt-multi-thread", "macros", "time", "fs", "io-util", "sync", "net"] }
tokio-tungstenite = "*"
futures = "*"
chrono = "*"
