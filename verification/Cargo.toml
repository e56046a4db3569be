[package]
name = "join_helper"
version = "0.1.0"
edition = "2021"
publish = false

[dependencies]
uuid = "*"
lambda_http = "*"
reqwest = { version = "*", default-features = false }
tokio = { version = "*", features = ["macros", "rt"] }

[dev-dependencies]
serde_json = "*"
