[package]
name = "nft_art"
version = "0.1.0"
edition = "2021"
publish = false

[dependencies]
adler = "=1.0.2"
alloy-sol-types = "=0.7.6"
base64 = "=0.22.1"
crc = "=3.4.0"
fastrand = "=2.5.0"
ruint = { version = "=1.12.3", default-features = false }
stylus-sdk = "=0.6.1"

[dev-dependencies]
miniz_oxide = "=0.8.9"
