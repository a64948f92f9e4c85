[package]
name = "redunar"
version = "0.1.0"
edition = "2021"
publish = false

[dependencies]
evdev = "*"
libc = "*"
nix = { version = "*", features = ["fs", "socket", "user"] }
