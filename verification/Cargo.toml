[package]
name = "difforge"
version = "0.1.0"
edition = "2021"
publish = false

[dependencies]
ansi-to-tui = "7"
ratatui = "0.29"
unicode-width = "0.2"
crossterm = "0.28"
signal-hook = "0.3"
