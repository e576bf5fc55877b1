[package]
name = "terminus_spaceport"
version = "0.1.0"
edition = "2021"
publish = false

[dependencies]
libc = "=0.2.191"
rand = "0.8"
tun-tap = { version = "=0.1.4", default-features = false }
