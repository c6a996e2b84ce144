[package]
name = "transfer_tracker"
version = "0.1.0"
edition = "2021"
publish = false

[dependencies]
indexmap = "2"
uuid = { version = "1", features = ["v4"] }
reqwest = { version = "0.12", features = ["blocking"] }
