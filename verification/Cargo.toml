[package]
name = "diffimg"
version = "1.0.0"
edition = "2021"
publish = false

[dependencies]
base64 = "0.13"
clap = "4"
image = { version = "0.24", default-features = false, features = ["png", "jpeg", "gif", "bmp"] }
