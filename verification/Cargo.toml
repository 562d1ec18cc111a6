[package]
name = "registry"
version = "0.1.0"
edition = "2021"
publish = false

[dependencies]
serde = { version = "=1.0.229", features = ["derive"] }
schemars = "=1.2.2"
anyhow = "=1.0.104"
