[package]
name = "photo_renamer"
version = "0.1.0"
edition = "2021"
publish = false

[dependencies]
anyhow = "1"
argh = "0.1"
chrono = { version = "0.4", default-features = false, features = ["std", "clock"] }
indicatif = "0.17"
kamadak-exif = "0.5"
log = "0.4"
regex = "1"
rusqlite = "*"
serde = { version = "1", features = ["derive"] }
serde_derive = "1"
simplelog = "0.12"
toml = "0.5"
walkdir = "2"
