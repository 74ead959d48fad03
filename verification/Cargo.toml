[package]
name = "c_compiler"
version = "0.1.0"
edition = "2021"
publish = false

[dependencies]
regex-syntax = "=0.8.11"
clap = { version = "=4.6.7", features = ["derive"] }

[dev-dependencies]
regex = "=1.13.1"
