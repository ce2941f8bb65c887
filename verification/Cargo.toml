[package]
name = "yafo"
version = "0.1.0"
edition = "2021"
publish = false

[dependencies]
sha1 = "0.10"
anyhow = "1"
clap = { version = "4", features = ["derive"] }
glob = "0.3"
indicatif = "0.17"
rayon = "1"
