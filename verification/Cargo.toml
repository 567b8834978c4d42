[package]
name = "gate_overlap"
version = "0.1.0"
edition = "2021"
publish = false

[dependencies]
anyhow = "1"
histo = "*"
indicatif = "0.17"
rand = "0.8"
rayon = "1"
serde = { version = "1", features = ["derive"] }
serde_json = "1"
