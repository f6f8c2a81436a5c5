[package]
name = "cardamum"
version = "0.1.0"
edition = "2021"
publish = false

[dependencies]
memchr = "*"
base64 = "*"
chrono = "*"
uuid = { version = "*", features = ["v4"] }
io-addressbook = "*"
