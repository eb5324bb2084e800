[package]
name = "julia_frames"
version = "0.1.0"
edition = "2021"
publish = false

[dependencies]
clap = { version = "4", features = ["derive"] }
gif = "0.13"
image = { version = "0.24", default-features = false, features = ["png"] }
indicatif = { version = "0.17", features = ["rayon"] }
num = "0.4"
rayon = "1"
