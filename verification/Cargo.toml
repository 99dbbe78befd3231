[package]
name = "mandelbrot"
version = "0.1.0"
edition = "2021"
publish = false

[dependencies]
crossbeam = "0.3"
image = "0.22"
num = "*"
probability = "*"
slice-of-array = "*"
