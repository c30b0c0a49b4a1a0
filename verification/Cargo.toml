[package]
name = "rusty_bells"
version = "0.1.0"
edition = "2021"
publish = false

[dependencies]
permutations = "*"
clap = { version = "*", features = ["derive"] }
