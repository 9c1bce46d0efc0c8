[package]
name = "dungeonmaker"
version = "0.1.0"
edition = "2021"
publish = false

[dependencies]
derive_more = "=0.99.20"
macroquad = { version = "=0.3.26", default-features = false }
