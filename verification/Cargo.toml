[package]
name = "brief"
version = "0.1.0"
edition = "2021"
publish = false

[dependencies]
toml = "*"
serde_json = { version = "*", features = ["preserve_order"] }
serde = { version = "*", features = ["derive"] }
clap = { version = "*", features = ["derive"] }
