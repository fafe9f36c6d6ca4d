[package]
name = "zlang"
version = "0.1.0"
edition = "2021"
publish = false

[dependencies]
nom = "8"
pico-args = "*"
qbe = "*"
