[package]
name = "github_ci"
version = "0.1.0"
edition = "2021"
publish = false

[dependencies]
serde = { version = "*", features = ["derive"] }
serde_json = "*"
axoasset = "*"
camino = "*"
cargo-dist-schema = "*"
miette = "*"
tracing = "*"
