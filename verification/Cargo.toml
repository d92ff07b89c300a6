[package]
name = "roracache"
version = "0.1.0"
edition = "2021"
publish = false

[dependencies]
atty = "0.2"
crossbeam-channel = "0.5"
crossterm = "0.26"
fuser = { version = "0.12", default-features = false, features = ["abi-7-21"] }
libc = "0.2"
liso = "*"
nix = { version = "0.26", default-features = false, features = ["fs", "user"] }
parking_lot = "0.12"
unicode-width = "0.1"
