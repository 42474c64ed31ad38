[package]
name = "tickerbar_core"
version = "0.1.0"
edition = "2021"
publish = false

[dependencies]
rust_decimal = "1"
time = { version = "0.3", features = ["local-offset"] }
serde = { version = "1", features = ["derive"] }
serde_json = "1"
reqwest = { version = "0.12", default-features = false, features = ["rustls-tls"] }
tokio = { version = "1", features = ["rt", "time", "macros"] }
