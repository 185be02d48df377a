[package]
name = "profiles"
version = "0.1.0"
edition = "2021"
publish = false

[dependencies]
actix-web = "*"
aws-config = "*"
aws-sdk-dynamodb = "*"
serde = { version = "1", features = ["derive"] }
tracing = "*"
tracing-subscriber = "*"
uuid = { version = "1", features = ["v4"] }
