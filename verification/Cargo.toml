[package]
name = "stainless_compiler"
version = "0.1.0"
edition = "2021"
publish = false

[dependencies]
syn = "2"
toml = "0.8"
serde = { version = "1", features = ["derive"] }
