[package]
name = "voyager_disco"
version = "0.1.0"
edition = "2021"
publish = false

[dependencies]
anyhow = "1"
clap = { version = "4", features = ["derive"] }
clap_complete = "4"
hidapi = "2"
toml = "*"
udev = "*"
