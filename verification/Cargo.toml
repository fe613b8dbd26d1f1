[package]
name = "kobold_bench"
version = "0.1.0"
edition = "2021"
publish = false

[dependencies]
criterion = { version = "0.5", default-features = false }
gnucobol-rs = "=0.7.17"
kobold-data-shim = { version = "=0.7.2", features = ["rayon"] }
rayon = "=1.12.0"
sha2 = "=0.10.9"
