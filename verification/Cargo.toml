[package]
name = "aruna_proxy"
version = "0.1.0"
edition = "2021"
publish = false

[dependencies]
anyhow = "1"
aruna-file = "=0.3.4"
aruna-rust-api = "=2.0.2"
async-channel = "2"
async-trait = "0.1"
aws-config = { version = "1", default-features = false, features = ["behavior-version-latest"] }
aws-sdk-s3 = { version = "1", default-features = false, features = ["behavior-version-latest"] }
bytes = "1"
diesel-ulid = "=0.3.2"
dotenvy = "0.15"
hyper = { version = "0.14", features = ["server", "tcp", "stream", "http1"] }
jsonwebtoken = "=9.3.1"
log = "0.4"
s3s = "=0.11.1"
serde = { version = "1", features = ["derive"] }
tokio = { version = "1", features = ["full"] }
tokio-stream = "0.1"
tonic = "=0.11.0"
tracing = "0.1"
rusty_ulid = "=2.0.0"
