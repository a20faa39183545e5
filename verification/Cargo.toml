[package]
name = "pts_loader"
version = "0.1.0"
edition = "2021"
publish = false

[dependencies]
anyhow = "1"
pbr = "1"
rayon = "1"
