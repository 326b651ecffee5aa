[package]
name = "broski"
version = "0.5.0"
edition = "2021"
publish = false

[dependencies]
anyhow = "1"
blake3 = "1"
clap = { version = "4", features = ["derive"] }
crossterm = "0.28"
indicatif = "0.17"
libc = "0.2"
miette = "7"
num_cpus = "1"
ratatui = "0.29"
rayon = "1"
reflink-copy = "0.1"
rusqlite = { version = "*", features = ["bundled"] }
serde = { version = "1", features = ["derive"] }
serde_json = "1"
tempfile = "3"
terminal-light = "1"
walkdir = "2"
which = "*"
