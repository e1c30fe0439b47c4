[package]
name = "matrix_midi"
version = "0.1.0"
edition = "2021"
publish = false

[dependencies]
heapless = "*"
midi-convert = "*"
usbd-midi = "*"
