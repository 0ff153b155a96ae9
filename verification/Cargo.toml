[package]
name = "pz_pack"
version = "0.1.0"
edition = "2021"
publish = false

[dependencies]
image = "0.24"
clap = { version = "4", features = ["derive"] }
glam = { version = "0.24", features = ["serde"] }
serde = { version = "1", features = ["derive"] }
toml = "0.8"
thiserror = "1"
