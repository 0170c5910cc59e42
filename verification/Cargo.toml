[package]
name = "hls1024"
version = "0.1.0"
edition = "2021"
publish = false

[dependencies]
num-bigint-dig = "=0.9.1"
sha3 = "=0.10.9"
hex = "=0.4.3"
