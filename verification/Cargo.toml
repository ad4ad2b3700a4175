[package]
name = "shiva"
version = "0.1.0"
edition = "2021"
publish = false

[dependencies]
anyhow = "=1.0.104"
bytes = "=1.12.1"
clap = { version = "=4.6.7", features = ["derive"] }
comemo = "=0.4.0"
log = "=0.4.34"
lopdf = { version = "=0.32.0", default-features = false, features = ["nom_parser"] }
regex = "=1.13.1"
typst = "=0.11.1"
typst-pdf = "=0.11.1"
