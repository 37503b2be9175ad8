[package]
name = "oss_rust_sdk"
version = "0.1.0"
edition = "2021"
publish = false

[dependencies]
quick-xml = "*"
hmac = "*"
sha1 = "*"
base64 = "*"
chrono = "*"
bytes = "*"
reqwest = { version = "*", default-features = false, features = ["blocking"] }
