[package]
name = "depended_upon"
version = "0.1.0"
edition = "2021"
publish = false

[dependencies]
rocket = { version = "0.5", features = ["json"] }
serde = "1"
serde_derive = "1"
serde_json = "1"
