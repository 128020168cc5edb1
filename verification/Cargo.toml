[package]
name = "dispatch_json"
version = "0.1.0"
edition = "2021"
publish = false

[dependencies]
tokio = { version = "=1.53.2", features = ["rt", "net", "time"] }
futures = "=0.3.34"

[dev-dependencies]
serde_json = "=1.0.151"
