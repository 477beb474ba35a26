[package]
name = "ccompiler"
version = "0.1.0"
edition = "2021"
publish = false

[dependencies]
once_cell = "1"
clap = { version = "4", features = ["derive"] }
