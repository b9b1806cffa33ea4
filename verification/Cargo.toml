[package]
name = "sim_foundation"
version = "0.1.0"
edition = "2021"
publish = false

[dependencies]
sha2 = "=0.10.9"
sim-kernel = "*"
sim-value = "*"
sim-table-core = "*"
