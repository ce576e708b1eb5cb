[package]
name = "exceldiff"
version = "0.1.0"
edition = "2021"
publish = false

[dependencies]
anyhow = "*"
calamine = "*"
clap = { version = "*", features = ["derive"] }
rust_xlsxwriter = "*"
