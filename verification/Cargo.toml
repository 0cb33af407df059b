[package]
name = "ocrlocate"
version = "0.1.0"
edition = "2021"
publish = false

[dependencies]
rusqlite = { version = "*", features = ["bundled"] }
regex = "*"
glob = "*"
clap = "*"
dirs = "*"
image = "*"
kdam = "*"
rayon = "*"
walkdir = "*"
leptess = "*"
leptonica-plumbing = "*"
