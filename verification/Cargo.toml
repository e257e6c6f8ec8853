[package]
name = "raytracer"
version = "0.1.0"
edition = "2021"
publish = false

[dependencies]
image = "*"
rand = "*"
rayon = "*"
indicatif = "*"
console = "*"
tobj = "*"
