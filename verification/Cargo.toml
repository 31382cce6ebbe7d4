[package]
name = "rusty_socket"
version = "0.1.0"
edition = "2021"
publish = false

[dependencies]
base64 = "0.13"
rand = "0.8"
sha1_smol = "1"
