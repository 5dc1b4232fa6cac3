[package]
name = "mmcp"
version = "0.1.0"
edition = "2021"
publish = false

[dependencies]
anyhow = "1"
futures = "0.3"
tokio = { version = "1", features = ["rt", "macros", "io-std", "io-util", "sync"] }

[dev-dependencies]
serde_json = "1"
