[package]
name = "tyrannus"
version = "0.1.0"
edition = "2021"
publish = false

[dependencies]
toml = "*"
unicode-width = "*"
unicode-segmentation = "*"
ratatui = "*"
crossterm = "*"
