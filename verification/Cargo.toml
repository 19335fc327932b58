[package]
name = "plasma"
version = "0.1.0"
edition = "2021"
publish = false

[dependencies]
time = { version = "*", default-features = false, features = ["std"] }
