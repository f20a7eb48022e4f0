[package]
name = "numerov"
version = "0.1.0"
edition = "2021"
publish = false

[dependencies]
itertools-num = "*"
ndarray = "*"
num = "*"
plotters = "*"
