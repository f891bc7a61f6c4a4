[package]
name = "consolet"
version = "0.1.0"
edition = "2021"
publish = false

[dependencies]
rand = "0.8"
image = { version = "0.24", default-features = false, features = ["png"] }
flate2 = "1"
serde = { version = "1", features = ["derive"] }
serde_json = "1"
