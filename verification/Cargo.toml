[package]
name = "ferret"
version = "0.1.1"
edition = "2021"
publish = false

[dependencies]
anyhow = "*"
chrono = "*"
clap = { version = "*", features = ["derive"] }
colored = "*"
humansize = "*"
regex = "*"
terminal_size = "*"
walkdir = "*"
