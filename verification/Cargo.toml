[package]
name = "wix_sheets"
version = "0.1.0"
edition = "2021"
publish = false

[dependencies]
jsonway = "2"
reqwest = { version = "0.11", default-features = false, features = ["blocking", "rustls-tls"] }
serde = { version = "1", features = ["derive"] }
serde_json = "1"
