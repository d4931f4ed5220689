[package]
name = "hydrate_data"
version = "0.1.0"
edition = "2021"
publish = false

[dependencies]
uuid = { version = "1", features = ["v4", "serde"] }
siphasher = "0.3"
base64 = "0.13"
serde = { version = "1", features = ["derive"] }
serde_json = "1"
