[package]
name = "ebs"
version = "0.1.0"
edition = "2021"
publish = false

[dependencies]
csv = "1"
indicatif = "0.17"
jiff = "0.2"
rand = "0.8"
serde = { version = "1", features = ["derive"] }
