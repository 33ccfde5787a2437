[package]
name = "sim_session"
version = "0.1.0"
edition = "2021"
publish = false

[dependencies]
hex = "*"
chrono = "*"
rand = "*"
serde_json = "*"
url = "*"
clap = { version = "*", features = ["derive"] }
