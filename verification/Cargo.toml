[package]
name = "cosmic_text"
version = "0.1.0"
edition = "2021"
publish = false

[dependencies]
fontdb = "*"
log = "0.4"
swash = "*"
unicode-segmentation = "1"
