[package]
name = "wtfareu"
version = "0.1.0"
edition = "2021"
publish = false

[dependencies]
serde_json = "1"
iced = { version = "0.10", default-features = false }
