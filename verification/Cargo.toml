[package]
name = "depthmate"
version = "0.1.0"
edition = "2021"
publish = false

[dependencies]
anyhow = "1"
clap = { version = "4", features = ["derive"] }
csv = "1"
itertools = "*"
noodles = { version = "*", features = ["vcf"] }
rayon = "1"
rust-htslib = { version = "*", default-features = false }
serde = { version = "1", features = ["derive"] }
smartstring = "1"
