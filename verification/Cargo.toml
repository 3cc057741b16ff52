[package]
name = "rust_ray"
version = "0.1.0"
edition = "2021"
publish = false

[dependencies]
dashmap = "*"
gl = "*"
glu-sys = "*"
rusttype = "*"
sdl2 = "0.37"
