[package]
name = "tanaterm"
version = "0.1.0"
edition = "2021"
publish = false

[dependencies]
anyhow = "1"
directories = "5"
portable-pty = "0.8"
serde = { version = "1", features = ["derive"] }
toml = "0.8"
