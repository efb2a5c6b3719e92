[package]
name = "mbackup"
version = "0.1.0"
edition = "2021"
publish = false

[dependencies]
rust-crypto = "0.2"
base64 = "0.13"
hex = "0.4"
rand = "0.8"
