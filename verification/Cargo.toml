[package]
name = "pihole_api"
version = "0.1.0"
edition = "2021"
publish = false

[dependencies]
regex = "1"
rocket = "0.5"
