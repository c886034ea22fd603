[package]
name = "soundboard"
version = "0.1.0"
edition = "2021"
publish = false

[dependencies]
crossterm = "0.26"
rodio = { version = "0.17", default-features = false, features = ["wav"] }
