[package]
name = "logtrak"
version = "0.1.0"
edition = "2021"
publish = false

[dependencies]
anyhow = "1"
clap = { version = "4", default-features = false, features = ["std", "derive", "help", "usage", "error-context"] }
crossterm = "0.28"
dirs = "6"
eframe = { version = "0.32", default-features = false, features = ["default_fonts", "glow", "x11"] }
ratatui = "0.29"
regex = "1"
rfd = { version = "0.15", default-features = false, features = ["xdg-portal", "tokio"] }
serde = { version = "1", features = ["derive"] }
thiserror = "2"
time = { version = "0.3", features = ["formatting", "local-offset"] }
toml = "0.8"
