[package]
name = "dirlist"
version = "0.1.0"
edition = "2021"
publish = false

[dependencies]
clap = { version = "4", features = ["derive"] }
colored = "2"
json = "0.12"
rayon = "1"
regex = "1"
term_size = "0.3"
