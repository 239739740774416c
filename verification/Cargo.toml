[package]
name = "pathtracer"
version = "0.1.0"
edition = "2021"
publish = false

[dependencies]
lazy_static = "1"
rand = "0.7"
rayon = "1"
stb_image = "0.2"
