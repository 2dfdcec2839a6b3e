[package]
name = "raytracer"
version = "0.1.0"
edition = "2021"
publish = false

[dependencies]
nalgebra = "0.32"
parry3d = "0.13"
rand = "0.8"
image = { version = "0.24", default-features = false, features = ["png"] }
nom = "7"
progress = "*"
