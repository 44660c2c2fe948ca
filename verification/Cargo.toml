[package]
name = "ananicy-rule-o-matic"
version = "0.1.0"
edition = "2021"
publish = false

[dependencies]
anyhow = "1"
clap = { version = "4", features = ["derive"] }
colored = "*"
crossterm = "*"
directories = "*"
dirs = "*"
libc = "0.2"
ratatui = "*"
serde = { version = "1", features = ["derive"] }
serde_json = "1"
sysinfo = "*"
toml = "*"
walkdir = "2"
