[package]
name = "imp"
version = "0.1.0"
edition = "2021"
publish = false

[dependencies]
chrono = "*"
clap = { version = "*", features = ["derive"] }
serde = { version = "*", features = ["derive"] }
toml = "*"
dirs = "*"
nix = { version = "*", features = ["mount", "user", "fs"] }
caps = "*"
anyhow = "*"
