[package]
name = "s3_object_storage"
version = "0.1.0"
edition = "2021"
publish = false

[dependencies]
anyhow = "1"
async-trait = "0.1"
aws-config = { version = "1", default-features = false, features = ["rt-tokio", "behavior-version-latest"] }
aws-sdk-s3 = { version = "1", default-features = false, features = ["rt-tokio", "behavior-version-latest"] }
base64 = "0.21"
futures = "0.3"
md5 = "0.7"
prost = "0.13"
serde = { version = "1", features = ["derive"] }
tokio = { version = "1", features = ["io-util", "time"] }
tracing = "0.1"
utoipa = "4"

[dev-dependencies]
regex = "1"
