[package]
name = "llm_adapter"
version = "0.1.0"
edition = "2021"
publish = false

[dependencies]
serde = { version = "*", features = ["derive"] }
serde_json = "*"
portable-pty = "*"
uuid = { version = "*", features = ["v4"] }
lazy_static = "*"
tokio = { version = "*", default-features = false, features = ["rt", "time", "macros"] }
futures-util = "*"
