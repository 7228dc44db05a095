[package]
name = "blazelint"
version = "0.1.0"
edition = "2021"
publish = false

[dependencies]
memchr = "2"
colored = "2"
anyhow = "1"
clap = { version = "4", features = ["derive"] }
indicatif = { version = "0.17", features = ["rayon"] }
jwalk = "0.8"
memmap2 = "0.9"
rayon = "1"
serde = { version = "1", features = ["derive"] }
serde_json = "1"
tempfile = "3"
