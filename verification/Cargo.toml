[package]
name = "yl"
version = "0.1.0"
edition = "2021"
publish = false

[dependencies]
regex = "*"
serde_yaml = "*"
serde = { version = "*", features = ["derive"] }
serde_json = "*"
clap = { version = "*", features = ["derive"] }
eyre = "*"
walkdir = "*"
rayon = "*"
dirs = "*"
libloading = "*"
