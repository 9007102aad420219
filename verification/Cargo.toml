[package]
name = "uxr"
version = "0.1.0"
edition = "2021"
publish = false

[dependencies]
anyhow = "1"
clap = { version = "4", features = ["derive"] }
thiserror = "2"
ratatui = "*"
crossterm = "*"
macroquad = "*"
