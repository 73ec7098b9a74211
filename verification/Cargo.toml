[package]
name = "twomeans1d"
version = "0.1.0"
edition = "2021"
publish = false

[dependencies]
statrs = "*"
rand = "0.8"
plotters = { version = "0.3", default-features = false, features = ["bitmap_backend", "bitmap_encoder"] }
