[package]
name = "aes_modes"
version = "0.1.0"
edition = "2021"
publish = false

[dependencies]
aes = "0.8"
array-init = "2"
rand = "0.8"
rayon = "1"
