[package]
name = "panko"
version = "0.1.0"
edition = "2021"
publish = false

[dependencies]
anyhow = "1"
chrono = "0.4"
clap = { version = "4", features = ["derive"] }
crossterm = "0.28"
dirs = "5"
git2 = { version = "0.19", default-features = false }
notify = "6"
nucleo-matcher = "0.3"
once_cell = "1"
ratatui = "0.29"
rusqlite = { version = "0.32", features = ["bundled"] }
serde_json = "1"
syntect = { version = "5", default-features = false, features = ["default-fancy"] }
toml = "0.8"
two-face = { version = "0.4", default-features = false, features = ["syntect-fancy"] }
