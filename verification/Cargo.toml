[package]
name = "holyrig"
version = "0.1.0"
edition = "2021"
publish = false

[dependencies]
argh = "=0.1.19"
configparser = "3"
serde = { version = "1", features = ["derive"] }
serde_json = "1"
toml = "0.8"
