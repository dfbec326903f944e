[package]
name = "session_auth"
version = "0.1.0"
edition = "2021"
publish = false

[dependencies]
argon2 = "*"
chrono = "*"
hmac = "*"
rand = "*"
sha2 = "*"
uuid = { version = "*", features = ["v4"] }
