[package]
name = "lidar_heightmap"
version = "0.1.0"
edition = "2021"
publish = false

[dependencies]
clap = { version = "=4.6.7", features = ["derive"] }
exr = "=1.74.2"
itertools = "=0.15.0"
kiddo = "=5.3.3"
las = { version = "=0.9.11", features = ["laz"] }
libblur = "=0.24.0"
rand = "=0.8.8"
reqwest = { version = "=0.13.5", features = ["blocking"] }
serde = { version = "=1.0.229", features = ["derive"] }
serde_json = "=1.0.154"
