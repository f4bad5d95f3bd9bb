[package]
name = "logging_rs"
version = "1.1.0"
edition = "2021"
publish = false

[dependencies]
chrono = "*"
