[package]
name = "phash"
version = "0.1.0"
edition = "2021"
publish = false

[dependencies]
tempfile = "*"
image = { version = "*", default-features = false, features = ["png", "jpeg", "tiff"] }
