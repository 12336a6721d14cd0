[package]
name = "ran"
version = "0.1.0"
edition = "2021"
publish = false

[dependencies]
atty = "*"
clap = { version = "*", features = ["derive"] }
dialoguer = "*"
serde = { version = "*", features = ["derive"] }
terminal_size = "*"
toml = "*"
walkdir = "*"
