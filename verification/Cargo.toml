[package]
name = "securevault"
version = "0.1.0"
edition = "2021"
publish = false

[dependencies]
openssl = "0.10"
