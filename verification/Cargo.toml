[package]
name = "s3gui_core"
version = "0.1.0"
edition = "2021"
publish = false

[dependencies]
anyhow = "*"
aws-config = "*"
aws-credential-types = "*"
aws-sdk-s3 = "*"
base64 = "*"
chrono = "*"
dirs = "*"
md-5 = "*"
notify = "*"
serde = { version = "*", features = ["derive"] }
serde_json = "*"
thiserror = "*"
tokio = { version = "*", features = ["rt-multi-thread", "macros", "sync", "fs", "io-util", "time"] }
uuid = { version = "*", features = ["v4"] }
walkdir = "*"
