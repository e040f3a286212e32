[package]
name = "svdocgen"
version = "0.1.0"
edition = "2021"
publish = false

[dependencies]
clap = "=2.34.0"
mdbook = { version = "=0.4.52", default-features = false }
regex = "=1.13.1"
sv-parser = "=0.13.5"

[dev-dependencies]
toml = "=0.5.11"
