[package]
name = "tuntcp"
version = "0.1.0"
edition = "2021"
publish = false

[dependencies]
etherparse = "*"
tun-tap = { version = "0.1", default-features = false }
