[package]
name = "pointless_pointer"
version = "0.1.0"
edition = "2021"
publish = false

[dependencies]
saphyr-parser = "*"
anyhow = "*"
clap = { version = "*", features = ["derive"] }
colored = "*"
