[package]
name = "linkleaf"
version = "0.1.0"
edition = "2021"
publish = false

[dependencies]
time = { version = "*", features = ["local-offset"] }
uuid = { version = "*", features = ["v4"] }
chrono = "*"
