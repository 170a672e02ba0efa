[package]
name = "myvault"
version = "0.1.0"
edition = "2021"
publish = false

[dependencies]
aes-gcm = "*"
argon2 = "*"
chrono = "*"
clap = { version = "*", features = ["derive"] }
rustyline = "*"
