[package]
name = "typroxy"
version = "0.1.0"
edition = "2021"
publish = false

[dependencies]
rcgen = "0.13"
rustls = { version = "0.23", default-features = false, features = ["ring", "std", "tls12", "logging"] }
serde = { version = "1", features = ["derive"] }
tokio = { version = "1", features = ["full"] }
tokio-rustls = { version = "0.26", default-features = false, features = ["ring", "tls12", "logging"] }
toml = "0.8"
tun = { version = "0.6", features = ["async"] }
