[package]
name = "track_extract"
version = "0.1.0"
edition = "2021"
publish = false

[dependencies]
blake3 = "=1.8.7"
image = "=0.25.10"
num_cpus = "=1.17.0"
ocrs = "=0.13.1"
rayon = "=1.12.0"
rten = "=0.26.0"
rust_xlsxwriter = "=0.99.1"
serde = { version = "=1.0.229", features = ["derive"] }
