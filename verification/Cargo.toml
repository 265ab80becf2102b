[package]
name = "satysfi-formatter"
version = "0.1.0"
edition = "2021"
publish = false

[dependencies]
satysfi-parser = "*"
unicode-width = "0.1"
lspower = "1"
clap = { version = "3", features = ["derive"] }
