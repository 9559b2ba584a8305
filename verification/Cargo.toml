[package]
name = "hurl"
version = "2.0.0"
edition = "2021"
publish = false

[dependencies]
base64 = "=0.13.1"
curl = { version = "=0.4.51", default-features = false, features = ["static-curl"] }
encoding = "=0.2.33"
url = "=2.5.8"
