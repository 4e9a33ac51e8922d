[package]
name = "vox_place"
version = "0.1.0"
edition = "2021"
publish = false

[dependencies]
dot_vox = "*"
rand = "*"
serde = { version = "*", features = ["derive"] }
ron = "*"
