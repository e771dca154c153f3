[package]
name = "portwatch"
version = "0.1.0"
edition = "2021"
publish = false

[dependencies]
anyhow = "1"
clap = { version = "4", features = ["derive"] }
crossterm = "0.28"
ctrlc = "3"
nix = { version = "0.29", features = ["signal", "process"] }
ratatui = "0.29"
which = "7"
