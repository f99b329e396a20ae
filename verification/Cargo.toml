[package]
name = "gdax_client"
version = "0.1.0"
edition = "2021"
publish = false

[dependencies]
chrono = "*"
uuid = "*"
reqwest = { version = "*", default-features = false, features = ["blocking"] }
