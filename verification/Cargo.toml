[package]
name = "strelka"
version = "0.1.0"
edition = "2021"
publish = false

[dependencies]
rand = "*"
glam = "*"
half = "*"
vdb-rs = "*"
image = "*"
rayon = "*"
crossbeam-channel = "*"
single_value_channel = "*"
