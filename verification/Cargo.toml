[package]
name = "jmmview"
version = "0.1.0"
edition = "2021"
publish = false

[dependencies]
regex = "=1.13.1"
htmlize = { version = "=1.1.0", features = ["unescape"] }
anyhow = "=1.0.104"
clap = { version = "=4.6.7", features = ["derive"] }
serde_json = "=1.0.154"
merman = { version = "=0.7.0", features = ["raster", "ascii"] }
roughr-merman = "=0.12.0"
