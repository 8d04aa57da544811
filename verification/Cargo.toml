[package]
name = "mandelbrot"
version = "0.1.0"
edition = "2021"
publish = false

[dependencies]
colored = "2"
crossbeam = "0.8"
image = { version = "0.22", default-features = false, features = ["png_codec"] }
indicatif = "0.17"
num = "0.4"
num_cpus = "1"
