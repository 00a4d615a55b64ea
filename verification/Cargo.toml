[package]
name = "terminal_toys"
version = "0.1.0"
edition = "2021"
publish = false

[dependencies]
rand = "0.9"
rand_chacha = "0.9"
crossterm = "0.29"
clap = { version = "4", features = ["derive"] }
anyhow = "1"
