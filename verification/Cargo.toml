[package]
name = "spec_driven_docs"
version = "0.1.0"
edition = "2021"
publish = false

[dependencies]
sha2 = "=0.10.9"
toml = "=1.1.8"
semver = "=1.0.28"
serde_json = "=1.0.154"
camino = "=1.2.6"
jiff = "=0.2.39"
walkdir = "=2.5.0"
flate2 = "1"
tar = "0.4"
