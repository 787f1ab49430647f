[package]
name = "sausage"
version = "0.1.0"
edition = "2021"
publish = false

[dependencies]
anyhow = "=1.0.104"
clap = { version = "=4.6.7", features = ["derive"] }
flate2 = "=1.1.10"
rusqlite = { version = "=0.40.2", features = ["bundled", "fallible_uint"] }
tar = "=0.4.46"
