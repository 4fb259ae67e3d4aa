[package]
name = "pathtracer"
version = "0.1.0"
edition = "2021"
publish = false

[dependencies]
rand = "0.8"
num = "0.4"
image = { version = "0.24", default-features = false, features = ["png"] }
indicatif = "0.17"
