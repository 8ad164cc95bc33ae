[package]
name = "translate"
version = "0.1.0"
edition = "2021"
publish = false

[dependencies]
nu-ansi-term = "=0.50.3"
nu-plugin = "=0.115.1"
nu-protocol = "=0.115.1"
serde = { version = "=1.0.229", features = ["derive"] }
toml = "=0.8.23"
