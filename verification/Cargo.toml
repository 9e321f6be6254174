[package]
name = "rfe"
version = "0.1.0"
edition = "2021"
publish = false

[dependencies]
blake3 = "1"
chrono = { version = "0.4", default-features = false, features = ["clock", "std"] }
rust_decimal = "1"
uuid = { version = "1", features = ["v4"] }
streebog = "0.10"
quick-xml = "0.37"
serde = { version = "1", features = ["derive"] }
serde_json = "1"
thiserror = "2"
reqwest = { version = "0.12", default-features = false, features = ["json"] }
tokio = { version = "1", features = ["time"] }
tracing = "0.1"
