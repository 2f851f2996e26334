[package]
name = "pst_extractor"
version = "0.1.0"
edition = "2021"
publish = false

[dependencies]
anyhow = "*"
aws-config = "*"
aws-sdk-s3 = "*"
clap = { version = "*", features = ["derive", "env"] }
flate2 = "*"
mailparse = "*"
serde = { version = "*", features = ["derive"] }
serde_json = "*"
sha2 = "*"
tokio = { version = "*", features = ["rt-multi-thread", "macros", "fs", "io-util"] }
uuid = "*"
walkdir = "*"
