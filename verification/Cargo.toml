[package]
name = "raytracer"
version = "0.1.0"
edition = "2021"
publish = false

[dependencies]
rand = "0.8"
clap = "2"
image = { version = "0.24", default-features = false, features = ["jpeg", "png"] }
pbr = "1"
