[package]
name = "rsh"
version = "0.1.0"
edition = "2021"
publish = false

[dependencies]
colored = "*"
libc = "0.2"
nix = { version = "*", features = ["process", "signal"] }
rustyline = "*"
