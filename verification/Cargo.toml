[package]
name = "skean_raytracer"
version = "0.1.0"
edition = "2021"
publish = false

[dependencies]
semver = "1"
serde = { version = "1", features = ["derive", "rc"] }
serde_json = "1"
typetag = "0.2"
rand = "0.8"
rand_chacha = "0.3"
atomic = "0.6"
bytemuck = { version = "1", features = ["derive"] }
clap-serde-derive = "0.2"
winit = "0.30"
pixels = "0.15"
