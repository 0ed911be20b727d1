[package]
name = "todo"
version = "0.1.0"
edition = "2021"
publish = false

[dependencies]
fuzzy-matcher = "*"
unicode-width = "*"
anyhow = "*"
clap = { version = "*", features = ["derive"] }
crossterm = "*"
inquire = "*"
which = "*"

[dev-dependencies]
toml = "*"
