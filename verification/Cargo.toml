[package]
name = "symexrs"
version = "0.1.0"
edition = "2021"
publish = false

[dependencies]
flate2 = "1"
md5 = "0.7"
libc = "0.2"
serde = { version = "1", features = ["derive"] }
z3 = "0.12"
