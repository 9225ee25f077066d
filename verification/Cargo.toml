[package]
name = "lproj"
version = "0.1.0"
edition = "2021"
publish = false

[dependencies]
anyhow = "1"
async-std = { version = "1", features = ["attributes"] }
clap = { version = "4", features = ["derive"] }
deepl = "*"
http = "0.2"
hyper = "0.14"
octocrab = "0.32"
walkdir = "2"
