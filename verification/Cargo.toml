[package]
name = "event_collector"
version = "0.1.0"
edition = "2021"
publish = false

[dependencies]
aws-config = "=1.12.0"
aws-sdk-s3 = "=1.152.0"
# Held at 1.6: aws-types 1.7 builds on aws-smithy-schema 1, while aws-config 1.12 and
# aws-sdk-s3 1.152 build on 0.2, and the types that they exchange no longer agree.
aws-types = "=1.6.0"
chrono = { version = "=0.4.45", default-features = false, features = ["clock"] }
lambda-extension = "=1.1.1"
serde_json = "=1.0.154"
tokio = { version = "=1.54.1", features = ["macros", "rt-multi-thread"] }
tracing = "=0.1.44"
tracing-subscriber = { version = "=0.3.23", features = ["fmt"] }
