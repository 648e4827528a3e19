[package]
name = "atlas"
version = "0.1.0"
edition = "2021"
publish = false

[dependencies]
lru = "*"
regex = "1"
serde = { version = "1", features = ["derive"] }
serde_json = "1"
walkdir = "2"
rayon = "1"
log = "0.4"
