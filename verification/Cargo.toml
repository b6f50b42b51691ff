[package]
name = "qwen_studio"
version = "0.1.0"
edition = "2021"
publish = false

[dependencies]
regex = "=1.13.1"
serde = { version = "=1.0.229", features = ["derive"] }
serde_json = "=1.0.154"
tokio = { version = "=1.54.1", features = ["full"] }
reqwest = { version = "=0.12.28", default-features = false, features = ["json", "stream", "rustls-tls"] }
futures-util = "=0.3.34"
once_cell = "=1.21.4"
libc = "=0.2.191"
