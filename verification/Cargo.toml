[package]
name = "ctce8_cfg"
version = "0.1.0"
edition = "2021"
publish = false

[dependencies]
crc = "1"
flate2 = "*"
clap = "2"
