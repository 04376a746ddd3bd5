[package]
name = "o3json5"
version = "0.1.0"
edition = "2021"
publish = false

[dependencies]
json5 = "0.4.1"
pyo3 = "0.23"
serde = { version = "1", features = ["derive"] }
thiserror = "1"

[dev-dependencies]
serde_json = "1"
