[package]
name = "complai"
version = "0.1.0"
edition = "2021"
publish = false

[dependencies]
sha2 = "*"
chrono = "*"
serde = { version = "*", features = ["derive"] }
serde_json = "*"
serde_yml = "*"
clap = { version = "*", features = ["derive"] }
eyre = "*"
fs2 = "*"
tempfile = "*"
calamine = "*"
