[package]
name = "abc_tsp"
version = "0.1.0"
edition = "2021"
publish = false

[dependencies]
calamine = "0.22"
num_cpus = "1"
rand = "0.8"
rayon = "1"
