[package]
name = "equart"
version = "0.1.0"
edition = "2021"
publish = false

[dependencies]
bytemuck = "1"
rand = "0.8"
sdl2 = "0.37"
