[package]
name = "function_selector_miner"
version = "0.1.0"
edition = "2021"
publish = false

[dependencies]
rayon = "1"
num_cpus = "1"
