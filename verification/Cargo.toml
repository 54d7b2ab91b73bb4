[package]
name = "hilbert_store"
version = "0.1.0"
edition = "2021"
publish = false

[dependencies]
fast_hilbert = "*"
memmap2 = "*"
