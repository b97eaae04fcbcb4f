[package]
name = "h1core"
version = "0.1.0"
edition = "2021"
publish = false

[dependencies]
regex = "=1.13.1"
serde = "1"
serde_urlencoded = "=0.7.1"
