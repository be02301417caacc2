[package]
name = "timeloop"
version = "0.1.0"
edition = "2021"
publish = false

[dependencies]
argon2 = "*"
base64 = "*"
chacha20poly1305 = "*"
chrono = "*"
rand = "*"
uuid = { version = "*", features = ["v4"] }
zeroize = "*"
