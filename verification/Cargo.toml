[package]
name = "nuke-node-modules"
version = "0.1.0"
edition = "2021"
publish = false

[dependencies]
anyhow = "1"
chrono = "0.4"
clap = { version = "4", features = ["derive"] }
colored = "2"
dialoguer = "0.11"
glob = "0.3"
indicatif = "0.17"
num_cpus = "1"
rayon = "1"
walkdir = "2"
