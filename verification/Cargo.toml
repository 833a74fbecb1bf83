[package]
name = "sos2"
version = "0.1.0"
edition = "2021"
publish = false

[dependencies]
bit_field = "*"
multiboot2 = "*"
spin = "*"
x86_64 = { version = "*", default-features = false, features = ["instructions"] }
