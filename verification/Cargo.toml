[package]
name = "bundler_core"
version = "0.1.0"
edition = "2021"
publish = false

[dependencies]
heck = "*"
serde = { version = "*", features = ["derive"] }
