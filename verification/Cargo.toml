[package]
name = "gj"
version = "0.2.0"
edition = "2021"
publish = false

[dependencies]
mio = { version = "1", features = ["os-poll", "net"] }
nix = { version = "0.29", features = ["socket", "uio"] }
