[package]
name = "orderbook_stream"
version = "0.1.0"
edition = "2021"
publish = false

[dependencies]
serde_json = "=1.0.154"
zstd = "=0.13.3"
tonic = { version = "=0.12.3", features = ["tls", "tls-native-roots"] }
prost = "=0.13.5"
tokio = { version = "=1.54.1", features = ["full"] }
tokio-stream = "=0.1.19"
chrono = "=0.4.45"
clap = { version = "=4.6.7", features = ["derive"] }
aws-config = { version = "=1.12.0", features = ["behavior-version-latest"] }
aws-sdk-s3 = "=1.152.0"
aws-types = "=1.6.0"
