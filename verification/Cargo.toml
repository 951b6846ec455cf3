[package]
name = "lvp"
version = "0.1.0"
edition = "2021"
publish = false

[dependencies]
bytes = "1"
fastrand = "2"
url = "2"
clap = { version = "4", features = ["derive", "env"] }
snafu = "0.8"
tokio = { version = "1", features = ["full"] }
futures = "0.3"
rayon = "1"
tracing = "0.1"
tracing-subscriber = "0.3"
tempfile = "3"
aws-config = "1"
aws-sdk-s3 = "1"
video-rs = "*"
