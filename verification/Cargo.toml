[package]
name = "simdex"
version = "0.1.0"
edition = "2021"
publish = false

[dependencies]
chrono = "0.4"
clap = { version = "4", features = ["derive"] }
hdf5 = "0.8"
pyo3 = "*"
rusqlite = "*"
serde = { version = "1", features = ["derive"] }
serde_json = "1"
serde_yaml = "0.9"
tabled = "*"
walkdir = "2"

[dev-dependencies]
regex = "1"
