[package]
name = "shincrypt"
version = "0.1.0"
edition = "2021"
publish = false

[dependencies]
argon2 = "=0.6.0"
chacha20 = { version = "=0.10.2", features = ["xchacha"] }
crossbeam = "=0.8.5"
fs_extra = "=1.3.0"
getrandom = "=0.4.3"
tar = "=0.4.46"
