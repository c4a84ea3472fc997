[package]
name = "objstore"
version = "0.1.0"
edition = "2021"
publish = false

[dependencies]
anyhow = "1"
clap = { version = "4", features = ["derive"] }
dotenv = "0.15"
env_logger = "0.11"
flate2 = "1"
hex = "0.4"
sha1 = "0.10"
