[package]
name = "verlet_integration"
version = "0.1.0"
edition = "2021"
publish = false

[dependencies]
glam = "0.27"
rand = "0.8"
rayon = "1"
