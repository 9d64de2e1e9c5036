[package]
name = "rtracer"
version = "0.1.0"
edition = "2021"
publish = false

[dependencies]
rand = "0.7"
nalgebra = "*"
rayon = "1"
approx = "*"
itertools = "*"
tobj = "*"
