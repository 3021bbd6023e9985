[package]
name = "scenario_player"
version = "0.1.0"
edition = "2021"
publish = false

[dependencies]
dissimilar = "*"
serde = { version = "*", features = ["derive"] }
serde_yaml = "*"
termion = "*"
