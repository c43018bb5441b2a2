[package]
name = "terminal_rpg"
version = "0.1.0"
edition = "2021"
publish = false

[dependencies]
rand = "0.9"
rand_chacha = "0.9"
clap = { version = "4", features = ["derive"] }
crossterm = "0.28"
ratatui = "0.29"
anyhow = "1"
