[package]
name = "alloy_rlp"
version = "0.1.0"
edition = "2021"
publish = false

[dependencies]
bytes = "1"
arrayvec = "0.7"
