[package]
name = "breakpoints"
version = "0.1.0"
edition = "2021"
publish = false

[dependencies]
axum = "=0.7.9"
futures-util = "=0.3.34"
ignore = "=0.4.34"
image = { version = "=0.25.10", default-features = false, features = ["png"] }
rand = "=0.8.8"
regex = "=1.13.1"
reqwest = { version = "=0.12.28", default-features = false, features = ["rustls-tls"] }
serde = { version = "=1.0.229", features = ["derive"] }
serde_json = "=1.0.154"
sha2 = "=0.10.9"
tokio = { version = "=1.54.1", features = ["macros", "net", "rt-multi-thread", "sync", "time"] }
url = "=2.5.8"
yaml-rust2 = "=0.10.4"
