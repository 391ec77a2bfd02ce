[package]
name = "pew"
version = "0.1.0"
edition = "2021"
publish = false

[dependencies]
clap = "=4.6.7"
regex = "=1.13.1"
rustix = { version = "*", features = ["time"] }
