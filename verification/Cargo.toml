[package]
name = "wallsweep"
version = "0.1.0"
edition = "2021"

[dependencies]
uuid = { version = "*", features = ["v4"] }
raylib = "*"
