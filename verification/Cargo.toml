[package]
name = "markdown_ingest"
version = "0.1.0"
edition = "2021"
publish = false

[dependencies]
comrak = "*"
walkdir = "*"

[dev-dependencies]
serde_json = "*"
