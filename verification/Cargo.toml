[package]
name = "diodon"
version = "0.1.0"
edition = "2021"
publish = false

[dependencies]
blake3 = { version = "1", default-features = false, features = ["std", "pure"] }
num-bigint = "0.4"
num-traits = "0.2"
rand = "0.8"
rsa = "0.9"
