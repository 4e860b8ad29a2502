[package]
name = "linear_region"
version = "0.1.0"
edition = "2021"
publish = false

[dependencies]
byteorder = "1.5"
zstd = "0.13"
