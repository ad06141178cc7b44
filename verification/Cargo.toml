[package]
name = "homebrewconfig"
version = "0.3.0"
edition = "2021"
publish = false

[dependencies]
crossterm = "0.28"
dirs = "5"
ratatui = "0.29"
serde = { version = "1", features = ["derive"] }
serde_json = "1"
toml = "0.8"
