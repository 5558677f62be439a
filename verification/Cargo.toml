[package]
name = "otkeep"
version = "0.1.0"
edition = "2021"
publish = false

[dependencies]
anyhow = "*"
clap = { version = "*", features = ["derive"] }
directories = "*"
owo-colors = "*"
paths-as-strings = "*"
rusqlite = { version = "*", features = ["bundled"] }
temp-dir = "*"
thiserror = "*"
