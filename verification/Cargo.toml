[package]
name = "eu4_patcher"
version = "0.1.0"
edition = "2021"
publish = false

[dependencies]
clap = { version = "*", features = ["derive"] }
strum = { version = "*", features = ["derive"] }
