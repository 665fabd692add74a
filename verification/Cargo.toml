[package]
name = "pulse_gateway"
version = "0.1.0"
edition = "2021"
publish = false

[dependencies]
keyring = { version = "=3.6.3", features = ["apple-native", "windows-native", "linux-native"] }
serde = { version = "=1.0.229", features = ["derive"] }
serde_json = "=1.0.154"
bollard = "=0.18.1"
futures = "=0.3.34"
reqwest = { version = "=0.12.28", default-features = false, features = ["json", "rustls-tls-manual-roots"] }
tokio = { version = "=1.54.1", features = ["sync", "time", "rt-multi-thread"] }
