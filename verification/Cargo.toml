[package]
name = "okane"
version = "0.1.0"
edition = "2021"
publish = false

[dependencies]
chrono = "*"
uuid = { version = "*", features = ["v4"] }
tokio = { version = "*", features = ["rt-multi-thread", "macros", "sync", "time"] }
serde = { version = "*", features = ["derive"] }
serde_json = "*"
