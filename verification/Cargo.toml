[package]
name = "veryla_analyzer"
version = "0.1.0"
edition = "2021"
publish = false

[dependencies]
regex = "*"
serde = { version = "*", features = ["derive"] }
toml = "*"
miette = { version = "*", features = ["fancy"] }
thiserror = "*"
