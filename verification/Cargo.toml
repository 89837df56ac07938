[package]
name = "chip8"
version = "0.1.0"
edition = "2021"
publish = false

[dependencies]
minifb = "0.27"
rodio = { version = "0.19", default-features = false }
