[package]
name = "workbench"
version = "0.1.0"
edition = "2021"
publish = false

[dependencies]
regex = "1"
chrono = "0.4"
ansi_term = "0.12"
tabular = "0.2"
rand = "0.9"
clap = { version = "4", features = ["derive"] }
walkdir = "2"
users = "0.11"
log = "0.4"
env_logger = "0.11"
anyhow = "1"
