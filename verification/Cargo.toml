[package]
name = "lookas"
version = "0.1.0"
edition = "2021"
publish = false

[dependencies]
anyhow = "*"
cpal = "*"
crossterm = "*"
dirs = "*"
rustfft = "*"
serde = { version = "*", features = ["derive"] }
toml = "*"
