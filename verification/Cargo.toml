[package]
name = "terrain_core"
version = "0.1.0"
edition = "2021"
publish = false

[dependencies]
noise = "0.8"
rand = "0.8"
