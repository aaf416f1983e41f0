[package]
name = "vox"
version = "0.1.0"
edition = "2021"
publish = false

[dependencies]
rand = "0.8"
rayon = "1"
noise = "0.7"
arrayvec = "0.7"
