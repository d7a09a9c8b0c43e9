[package]
name = "nearest_aircraft"
version = "0.1.0"
edition = "2021"
publish = false

[dependencies]
attohttpc = "*"
serde = { version = "*", features = ["derive"] }
serde_json = "*"
