[package]
name = "cwt"
version = "0.1.0"
edition = "2021"
publish = false

[dependencies]
rustfft = "6"
rayon = "1"
