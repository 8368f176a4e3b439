[package]
name = "herdr-configurable-picker"
version = "0.1.0"
edition = "2021"
publish = false

[dependencies]
toml = "0.8"
ratatui = "0.29"
crossterm = "0.28"
serde_json = "1"
serde = { version = "1", features = ["derive"] }
