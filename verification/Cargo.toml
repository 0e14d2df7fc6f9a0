[package]
name = "qrgen"
version = "0.1.0"
edition = "2021"
publish = false

[dependencies]
bitstream-io = "2"
image = { version = "0.24", default-features = false, features = ["png"] }
