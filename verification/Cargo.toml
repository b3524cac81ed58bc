[package]
name = "ripopt"
version = "0.8.0"
edition = "2021"
publish = false

[dependencies]
faer = "*"
feral = "*"
log = "0.4"
serde = { version = "1", features = ["derive"] }
