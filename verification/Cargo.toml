[package]
name = "minimum_energy_path"
version = "0.1.0"
edition = "2021"
publish = false

[dependencies]
serde = { version = "=1.0.229", features = ["derive"] }
serde_derive = "=1.0.229"
serde_json = "=1.0.154"
image = { version = "=0.24.9", default-features = false, features = ["png"] }
