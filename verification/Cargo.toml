[package]
name = "fast_jump"
version = "0.1.0"
edition = "2021"
publish = false

[dependencies]
fuzzy-matcher = "0.3"
dirs = "*"
crossbeam-channel = "0.5"
crossterm = "*"
ratatui = "*"
tui-input = "*"
ignore = "0.4"
clap = { version = "4", features = ["derive"] }
anyhow = "1"
serde = { version = "1", features = ["derive"] }
serde_json = "1"
libc = "0.2"
