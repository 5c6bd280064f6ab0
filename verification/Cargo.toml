[package]
name = "ziver"
version = "0.1.0"
edition = "2021"
publish = false

[dependencies]
anyhow = "=1.0.104"
clap = { version = "=4.6.7", features = ["derive"] }
im = "=15.1.0"
z3 = "=0.22.0"
