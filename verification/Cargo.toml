[package]
name = "neuron"
version = "0.1.0"
edition = "2021"
publish = false

[dependencies]
rand = "0.9"
plotters = { version = "0.3", default-features = false, features = ["bitmap_backend", "bitmap_encoder", "line_series"] }
