[package]
name = "rustymesh"
version = "0.1.0"
edition = "2021"
publish = false

[dependencies]
aes = "0.8"
base64 = "0.22"
byteorder = "1"
ctr = "0.9"
pyo3 = { version = "*", features = ["abi3-py310"] }
