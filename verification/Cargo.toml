[package]
name = "physics_step"
version = "0.1.0"
edition = "2021"
publish = false

[dependencies]
rayon = "1"
instant = { version = "0.1", features = ["now"] }
nalgebra = "*"
parry3d = "*"
