[package]
name = "mypng"
version = "0.1.0"
edition = "2021"

[dependencies]
crc = "3"
clap = { version = "4", features = ["derive"] }
