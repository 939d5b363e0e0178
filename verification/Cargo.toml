[package]
name = "gpm"
version = "0.1.0"
edition = "2021"
publish = false

[dependencies]
anyhow = "1"
clap = { version = "4", features = ["derive"] }
clap_complete = "4"
colored = "2"
dirs = "5"
path-clean = "1"
serde = { version = "1", features = ["derive"] }
tabwriter = "1"
toml = "0.8"
