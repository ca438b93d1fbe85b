[package]
name = "chip8"
version = "0.1.0"
edition = "2021"
publish = false

[dependencies]
anyhow = "1"
pixels = "0.15"
rand = "0.10"
winit = "0.30"
