[package]
name = "crypto-service"
version = "0.1.0"
edition = "2021"
publish = false

[dependencies]
chacha20 = "=0.4.3"
