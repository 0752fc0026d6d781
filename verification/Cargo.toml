[package]
name = "mcospkg"
version = "0.1.0"
edition = "2021"
publish = false

[dependencies]
chrono = "0.4"
clap = { version = "4", features = ["derive"] }
colored = "2"
dialoguer = "0.11"
hex = "0.4"
indicatif = "0.17"
rand = "0.9"
reqwest = { version = "0.12", features = ["blocking"] }
serde = { version = "1", features = ["derive"] }
serde_json = "1"
sha2 = "0.10"
tar = "0.4"
toml = "0.8"
walkdir = "2"
xz2 = "0.1"
