[package]
name = "flac_rs"
version = "0.1.0"
edition = "2021"
publish = false

[dependencies]
bytes = "1"
crc = "2"
md-5 = "0.10"

[dev-dependencies]
rand = "0.8"
