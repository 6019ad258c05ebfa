[package]
name = "serva"
version = "0.1.0"
edition = "2021"
publish = false

[dependencies]
serde = { version = "*", features = ["derive"] }
minicbor = { version = "*", features = ["derive", "std"] }
async-trait = "*"
