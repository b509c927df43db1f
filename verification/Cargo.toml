[package]
name = "shopbot"
version = "0.1.0"
edition = "2021"
publish = false

[dependencies]
anyhow = "1"
base64 = "0.22"
rand = "0.9"
unicode-segmentation = "1"
