[package]
name = "vacs_data"
version = "0.1.0"
edition = "2021"
publish = false

[dependencies]
encoding_rs = "*"
clap = { version = "*", features = ["derive"] }
console = "*"
serde = { version = "*", features = ["derive"] }
serde_json = "*"
toml = "*"
