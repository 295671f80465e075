[package]
name = "localchat"
version = "0.1.0"
edition = "2021"
publish = false

[dependencies]
serde_json = "*"
dashmap = "*"
uuid = { version = "*", features = ["v4"] }
tokio = { version = "*", features = ["rt-multi-thread", "macros", "sync"] }
reqwest = { version = "*", default-features = false, features = ["json", "stream"] }
futures = "*"
