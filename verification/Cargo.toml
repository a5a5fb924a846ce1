[package]
name = "tmux-selector"
version = "0.1.0"
edition = "2021"
publish = false

[dependencies]
anyhow = "1"
chrono = "0.4"
crossterm = "0.28"
ratatui = "0.29"
serde_json = { version = "1", features = ["preserve_order"] }
