[package]
name = "rustsync"
version = "0.1.0"
edition = "2021"
publish = false

[dependencies]
checksums = "*"
clap = { version = "*", features = ["derive"] }
directories = "*"
serde = { version = "*", features = ["derive"] }
tokio = { version = "*", features = ["full"] }
toml = "*"
walkdir = "*"
