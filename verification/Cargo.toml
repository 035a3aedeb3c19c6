[package]
name = "bl4_ncs"
version = "0.1.0"
edition = "2021"
publish = false

[dependencies]
anyhow = "1"
glob-match = "0.2"
indicatif = "0.17"
rayon = "1"
serde = { version = "1", features = ["derive"] }
serde_json = "1"
serde_yaml = "0.9"
unreal_asset = "0.1.16"
walkdir = "2"
