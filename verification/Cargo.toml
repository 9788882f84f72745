[package]
name = "snowglobe"
version = "0.1.0"
edition = "2021"
publish = false

[dependencies]
cgmath = "0.18"
clap = { version = "4", features = ["derive"] }
rand = "0.9"
raylib = "*"
