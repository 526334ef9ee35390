[package]
name = "tbf"
version = "0.1.0"
edition = "2021"
publish = false

[dependencies]
ggez = "=0.5.1"
nalgebra = "=0.18.1"
specs = "=0.10.0"
specs-derive = "0.1"
tiled = "=0.9.4"
