[package]
name = "mdf4_rs"
version = "0.1.0"
edition = "2021"
publish = false

[dependencies]
embedded-can = "=0.4.1"
serde = { version = "=1.0.229", features = ["derive"] }
serde_json = "=1.0.154"
