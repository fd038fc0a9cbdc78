[package]
name = "depgraph"
version = "0.1.0"
edition = "2021"
publish = false

[dependencies]
petgraph = "*"
semver = "*"
serde = { version = "*", features = ["derive"] }
serde_json = "*"
