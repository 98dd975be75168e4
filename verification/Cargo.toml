[package]
name = "rltk"
version = "0.1.0"
edition = "2021"
publish = false

[dependencies]
unicode-segmentation = "*"
crossbeam-channel = "*"
chrono = "*"
anyhow = "*"
