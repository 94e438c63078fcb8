[package]
name = "pyverum"
version = "0.1.2"
edition = "2021"
publish = false

[dependencies]
chrono = { version = "0.4", default-features = false, features = ["std"] }
regex = "1"
serde = { version = "1", features = ["derive"] }
toml = "0.8"
pyo3 = "0.22"
