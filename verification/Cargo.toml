[package]
name = "taimi_markers"
version = "0.1.0"
edition = "2021"
publish = false

[dependencies]
xml = "=1.4.0"
base64 = "=0.23.1"
md5 = "=0.8.1"
getrandom = "=0.4.3"
zip = "*"
image = { version = "=0.25.10", default-features = false, features = ["png"] }
