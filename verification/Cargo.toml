[package]
name = "rly"
version = "0.1.0"
edition = "2021"
publish = false

[dependencies]
anyhow = "1"
chrono = "0.4"
clap = { version = "4", features = ["derive"] }
colored = "2"
log = "0.4"
nix = { version = "0.29", features = ["signal", "process"] }
pretty_env_logger = "0.5"
tokio = { version = "1", features = ["full"] }
