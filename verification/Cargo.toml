[package]
name = "mandelbrot"
version = "0.1.0"
edition = "2021"
publish = false

[dependencies]
rayon = "1"
pixels = "0.13"
winit = "0.28"
winit_input_helper = "0.14"
error-iter = "0.4"
env_logger = "0.10"
log = "0.4"
