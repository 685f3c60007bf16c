[package]
name = "erasure_bench"
version = "0.1.0"
edition = "2021"
publish = false

[dependencies]
reed-solomon-erasure = "3"
rand = "0.8"
time = "0.1"
