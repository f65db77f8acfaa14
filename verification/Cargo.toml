[package]
name = "art_organize"
version = "0.1.0"
edition = "2021"
publish = false

[dependencies]
chrono = { version = "=0.4.45", features = ["serde"] }
serde = { version = "=1.0.229", features = ["derive"] }
bincode = "=1.3.3"
clap = { version = "=4.6.7", features = ["derive"] }
toml = "=0.8.23"
directories = "=5.0.1"
anyhow = "=1.0.104"
undo = "=0.52.0"
regex = "=1.13.1"
trash = "*"
