[package]
name = "soft_render"
version = "0.1.0"
edition = "2021"
publish = false

[dependencies]
cgmath = "*"
genmesh = "*"
obj = "*"
sdl2 = { version = "*", features = ["image"] }
time = "0.1"
