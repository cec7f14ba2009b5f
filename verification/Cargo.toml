[package]
name = "pixel_forge"
version = "0.1.0"
edition = "2021"
publish = false

[dependencies]
serde = { version = "1", features = ["derive"] }
ratatui = "0.29"
crossterm = "0.28"
