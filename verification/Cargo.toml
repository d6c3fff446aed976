[package]
name = "formula"
version = "0.1.0"
edition = "2021"
publish = false

[dependencies]
anyhow = "=1.0.104"
clap = { version = "=4.6.7", features = ["derive"] }
fef = { version = "=0.2.3", features = ["v0"] }
