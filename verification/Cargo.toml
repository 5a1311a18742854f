[package]
name = "deslop"
version = "0.1.0"
edition = "2021"
publish = false

[dependencies]
anyhow = "1"
clap = { version = "4", features = ["derive"] }
crossterm = "0.28"
globset = "0.4"
lsp-server = "0.7"
lsp-types = "0.97"
memchr = "2"
notify = "6"
notify-debouncer-mini = "0.4"
owo-colors = "4"
ratatui = "0.29"
rayon = "1"
regex = "1"
serde = { version = "1", features = ["derive"] }
serde_json = "1"
serde_yaml = "0.9"
similar = "2"
toml = "0.8"
walkdir = "2"
