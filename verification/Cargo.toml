[package]
name = "tractor-cli"
version = "0.0.1"
edition = "2021"
publish = false

[dependencies]
clap = "=2.34.0"
uuid = { version = "=0.8.2", features = ["v4"] }
