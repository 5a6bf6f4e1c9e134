[package]
name = "last_light_game"
version = "0.1.0"
edition = "2021"
publish = false

[dependencies]
rand = "=0.9.5"
serde = { version = "=1.0.229", features = ["derive"] }
serde_json = "=1.0.154"
dirs = "=6.0.0"
crossterm = "=0.28.1"
ratatui = "=0.29.0"
image = { version = "0.25", default-features = false, features = ["png"] }
resvg = { version = "0.45", default-features = false }
