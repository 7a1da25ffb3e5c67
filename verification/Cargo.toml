[package]
name = "terratile"
version = "0.1.0"
edition = "2021"
publish = false

[dependencies]
lerc = "*"
reqwest = { version = "*", default-features = false, features = ["blocking", "rustls-tls"] }
bytes = "*"
