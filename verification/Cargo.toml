[package]
name = "arca"
version = "2.5.0"
edition = "2021"
publish = false

[dependencies]
bytemuck = "1"
half = "2"
memmap2 = "0.9"
ndarray = "0.15"
pollster = "0.3"
pyo3 = { version = "0.20", features = ["abi3-py37", "extension-module"] }
rand = "0.8"
rand_distr = "0.4"
rand_pcg = "0.3"
rayon = "1"
serde = { version = "1", features = ["derive"] }
serde_json = "1"
wgpu = "22"
