[package]
name = "image_proxy"
version = "0.1.0"
edition = "2021"
publish = false

[dependencies]
aws-credential-types = "*"
aws-sdk-s3 = "*"
aws-types = "*"
bytes = "*"
config = { version = "*", default-features = false, features = ["yaml"] }
opencv = "*"
serde = { version = "*", features = ["derive"] }
tokio = { version = "*", features = ["full"] }
warp = "*"
