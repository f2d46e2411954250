[package]
name = "rustcar2"
version = "0.1.0"
edition = "2021"
publish = false

[dependencies]
clap = { version = "4", features = ["derive"] }
config-file = "*"
csv = "1"
ndarray = "*"
serde = { version = "1", features = ["derive"] }
statrs = "*"
