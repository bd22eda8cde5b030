[package]
name = "exocore"
version = "0.1.0"
edition = "2021"
publish = false

[dependencies]
byteorder = "1"
url = "2"
lru = "0.12"
chrono = "0.4"
