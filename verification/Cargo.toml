[package]
name = "herdr-muster"
version = "0.2.0"
edition = "2021"
publish = false

[dependencies]
crossterm = "0.28"
dirs = "5"
libc = "0.2"
nucleo-matcher = "0.3"
ratatui = "0.29"
serde = { version = "1", features = ["derive"] }
serde_json = "1"
tempfile = "3"
toml = "0.8"
unicode-segmentation = "1"
unicode-width = "0.2"
