[package]
name = "clean_recursive"
version = "0.1.0"
edition = "2021"
publish = false

[dependencies]
anyhow = "1"
bytesize = "=2.0.1"
clap = { version = "4", features = ["derive"] }
