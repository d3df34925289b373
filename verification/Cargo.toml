[package]
name = "altered_perception"
version = "0.1.0"
edition = "2021"
publish = false

[dependencies]
anyhow = "*"
clap = { version = "*", features = ["derive"] }
edge-detection = "*"
image = "*"
rayon = "*"
rgb = "*"
serde = { version = "*", features = ["derive"] }
serde_derive = "*"
toml = "*"
uuid = "*"
