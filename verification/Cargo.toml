[package]
name = "rq"
version = "0.1.0"
edition = "2021"
publish = false

[dependencies]
anyhow = "*"
arrow = { version = "*", default-features = false }
