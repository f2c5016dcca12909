[package]
name = "knock"
version = "0.1.0"
edition = "2021"
publish = false

[dependencies]
url = "2"
rand = "0.8"
serde_json = "1"
native-tls = "0.2"
