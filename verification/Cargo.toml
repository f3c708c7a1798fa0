[package]
name = "gaia_pipeline"
version = "0.1.0"
edition = "2021"
publish = false

[dependencies]
flate2 = "*"
crossbeam-channel = "*"
tar = "*"
num_cpus = "*"
