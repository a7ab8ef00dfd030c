[package]
name = "archer"
version = "0.1.0"
edition = "2021"
publish = false

[dependencies]
bvh = "*"
nalgebra = "*"
rand = "*"
image = { version = "*", default-features = false, features = ["png"] }
sdl2 = "*"
