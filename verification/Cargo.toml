[package]
name = "crumb"
version = "0.1.0"
edition = "2021"
publish = false

[dependencies]
rand = "=0.8.8"
rand_xoshiro = "=0.6.0"
sdl2 = { version = "=0.37.0", features = ["ttf"] }
