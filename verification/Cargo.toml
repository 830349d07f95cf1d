[package]
name = "palcalc"
version = "0.1.0"
edition = "2021"
publish = false

[dependencies]
rayon = "=1.12.0"
rand = "=0.9.5"
image = "=0.25.10"
anyhow = "=1.0.104"
clap = { version = "=4.6.7", features = ["derive"] }
crossterm = "=0.29.0"
bincode = { version = "=2.0.1", features = ["derive"] }
wild = "=2.2.1"
