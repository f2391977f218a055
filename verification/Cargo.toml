[package]
name = "path_tracer"
version = "0.1.0"
edition = "2021"
publish = false

[dependencies]
rand = "0.9"
nalgebra = "0.33"
rayon = "1"
indicatif = "0.17"
image = { version = "0.25", default-features = false, features = ["png", "jpeg"] }
