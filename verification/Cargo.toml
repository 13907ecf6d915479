[package]
name = "hndigest"
version = "0.1.0"
edition = "2021"
publish = false

[dependencies]
anyhow = "*"
aws-config = "*"
aws-sdk-dynamodb = "*"
aws-sdk-sesv2 = "*"
aws_lambda_events = "*"
chrono = "*"
email_address = "*"
futures = "*"
lambda_http = "*"
lambda_runtime = "*"
reqwest = { version = "*", default-features = false, features = ["rustls-tls", "json"] }
serde = { version = "*", features = ["derive"] }
serde_json = "*"
tokio = { version = "*", features = ["macros", "rt-multi-thread"] }
tracing = "*"
tracing-subscriber = { version = "*", features = ["env-filter", "json"] }
urlencoding = "*"
uuid = { version = "*", features = ["v4"] }
