[package]
name = "raytracer"
version = "0.1.0"
edition = "2021"
publish = false

[dependencies]
anyhow = "=1.0.104"
glam = "=0.24.2"
image = { version = "=0.24.9", default-features = false, features = ["jpeg"] }
num-traits = "=0.2.19"
rand = "=0.8.8"
