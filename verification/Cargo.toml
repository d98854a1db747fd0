[package]
name = "arael-sketch-backend"
version = "0.1.0"
edition = "2021"
publish = false

[dependencies]
arael = "*"
arael-sketch-solver = "*"
bincode = "1"
serde = { version = "1", features = ["derive"] }
serde_json = "1"
