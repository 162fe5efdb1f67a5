[package]
name = "squeeze"
version = "0.1.0"
edition = "2021"
publish = false

[dependencies]
serde = { version = "1", features = ["derive"] }
serde_json = "1"
tokio = { version = "1", features = ["sync", "process", "rt-multi-thread", "macros", "fs"] }
uuid = { version = "1", features = ["v4"] }
