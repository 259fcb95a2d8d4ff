[package]
name = "slpm_file"
version = "0.1.0"
edition = "2021"
publish = false

[dependencies]
aes-gcm = "0.9"
argon2 = "0.4"
chrono = "0.4"
pad = "0.1"
rand = "0.8"
