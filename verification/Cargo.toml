[package]
name = "jarbuild"
version = "0.1.0"
edition = "2021"
publish = false

[dependencies]
anyhow = "1"
flate2 = "1"
reqwest = { version = "0.12", features = ["blocking"] }
tar = "0.4"
