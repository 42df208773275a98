[package]
name = "hexworld"
version = "0.1.0"
edition = "2021"
publish = false

[dependencies]
rand = "0.9"
noise = "0.9"
sdl3 = "*"
gl = "0.14"
