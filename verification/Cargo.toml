[package]
name = "genart"
version = "0.1.0"
edition = "2021"
publish = false

[dependencies]
anyhow = "1"
cairo-rs = { version = "*", features = ["png"] }
clap = { version = "4", features = ["derive"] }
image = { version = "*", default-features = false, features = ["png", "jpeg"] }
indicatif = "*"
rand = "0.8"
