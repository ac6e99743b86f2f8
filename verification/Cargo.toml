[package]
name = "lightgrid"
version = "0.1.0"
edition = "2021"
publish = false

[dependencies]
glam = "*"
winit = "0.29"
luisa_compute = "*"
