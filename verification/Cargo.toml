[package]
name = "dndhelper"
version = "0.1.0"
edition = "2021"
publish = false

[dependencies]
hexx = "*"
rand = "*"
ron = "*"
serde = { version = "*", features = ["derive"] }
