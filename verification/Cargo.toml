[package]
name = "logv"
version = "0.1.0"
edition = "2021"
publish = false

[dependencies]
regex = "=1.13.1"
yaml-rust2 = "=0.10.4"
chrono = { version = "=0.4.45", default-features = false, features = ["std"] }
linked-hash-map = "0.5"
