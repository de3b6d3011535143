[package]
name = "cry_image"
version = "0.1.0"
edition = "2021"
publish = false

[dependencies]
byteorder = "1"
flate2 = "1"
image = "0.25"
rayon = "1"
