[package]
name = "ponopush"
version = "0.1.0"
edition = "2021"
publish = false

[dependencies]
serde_json = "1"
dirs = "*"
reqwest = { version = "*", default-features = false }
tokio = { version = "*", features = ["rt-multi-thread"] }
