[package]
name = "stt_pncc"
version = "0.1.0"
edition = "2021"
publish = false

[dependencies]
ndarray = { version = "0.16", features = ["rayon"] }
num-complex = "0.4"
rustfft = "6"
