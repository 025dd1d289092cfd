[package]
name = "dedupe"
version = "0.1.0"
edition = "2021"
publish = false

[dependencies]
rayon = "*"
clap = "*"
csv = "*"
serde_json = "*"
calamine = "*"
duckdb = { version = "*", default-features = false }
