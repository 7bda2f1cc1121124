[package]
name = "oscar"
version = "0.1.0"
edition = "2021"
publish = false

[dependencies]
chrono = "*"
clap = { version = "*", features = ["derive"] }
inquire = "*"
tabled = "*"
