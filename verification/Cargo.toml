[package]
name = "popvars"
version = "0.1.0"
edition = "2021"
publish = false

[dependencies]
csv = "1"
parsely = "*"
clap = { version = "4", features = ["derive"] }
anyhow = "1"
