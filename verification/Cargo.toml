[package]
name = "unit_parser"
version = "0.1.0"
edition = "2021"
publish = false

[dependencies]
chrono = "0.4"
chrono-tz = "*"
clap = { version = "4", features = ["derive"] }
nix = { version = "*", features = ["user", "feature"] }
os-release = "*"
