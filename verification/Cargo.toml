[package]
name = "aemo_automate"
version = "0.1.0"
edition = "2021"
publish = false

[dependencies]
html_parser = "*"
regex = "1"
serde = { version = "1", features = ["derive"] }
serde_json = "1"
