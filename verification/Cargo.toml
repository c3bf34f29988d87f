[package]
name = "signed_cuts"
version = "0.1.0"
edition = "2021"
publish = false

[dependencies]
rand = "0.8"
image = { version = "0.24", default-features = false, features = ["png", "jpeg"] }
clap = { version = "4", features = ["derive"] }
eyre = "0.6"
