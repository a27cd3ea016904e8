[package]
name = "fractal_lines"
version = "0.1.0"
edition = "2021"
publish = false

[dependencies]
nannou = "=0.18.1"
rand = "=0.8.8"

[dev-dependencies]
glam = "=0.17.3"
