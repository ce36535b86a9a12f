[package]
name = "honu"
version = "0.1.2"
edition = "2021"
publish = false

[dependencies]
anyhow = "*"
clap = { version = "*", features = ["derive"] }
confy = "*"
imara-diff = "*"
indicatif = "*"
ratatui = "*"
rusqlite = { version = "*", features = ["bundled", "backup"] }
serde = { version = "*", features = ["derive"] }
skim = "*"
tempfile = "*"
thiserror = "*"
unicode-display-width = "*"
unicode-segmentation = "*"
uuid = { version = "*", features = ["v4"] }
xdg = "*"
