[package]
name = "torn"
version = "0.1.0"
edition = "2021"
publish = false

[dependencies]
fontdue = "*"
serde = { version = "=1.0.229", features = ["derive"] }
serde_json = "=1.0.154"
