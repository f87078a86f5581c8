[package]
name = "plot_reader"
version = "0.1.0"
edition = "2021"
publish = false

[dependencies]
rand = "0.7"
crossbeam-channel = "*"
rayon = "*"
core_affinity = "*"
