[package]
name = "tams"
version = "0.1.0"
edition = "2021"
publish = false

[dependencies]
base64 = "=0.22.1"
uuid = { version = "=1.29.0", features = ["v4"] }
chrono = "=0.4.45"
serde = { version = "=1.0.229", features = ["derive"] }
serde_json = "=1.0.154"
tokio = { version = "=1.54.1", features = ["full"] }
salvo = { version = "=1.1.0", default-features = false, features = ["server", "http1", "cors", "affix-state"] }
reqwest = { version = "=0.12.28", default-features = false, features = ["json", "rustls-tls"] }
mongodb = "=3.9.1"
bson = "=2.15.0"
aws-sdk-s3 = { version = "1", default-features = false, features = ["behavior-version-latest"] }
aws-credential-types = { version = "1", default-features = false, features = ["hardcoded-credentials"] }
futures = "=0.3.34"
clap = { version = "=4.6.7", features = ["derive", "env"] }
tracing = "=0.1.44"
tracing-subscriber = "=0.3.23"
