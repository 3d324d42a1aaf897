[package]
name = "grf"
version = "0.1.0"
edition = "2021"
publish = false

[dependencies]
camino = { version = "1", features = ["serde1"] }
clap = { version = "4", features = ["derive"] }
comfy-table = "7"
dialoguer = "*"
directories = "*"
fs-err = "*"
indicatif = "*"
miette = "7"
serde = { version = "1", features = ["derive"] }
serde_json = "1"
tempfile = "3"
thiserror = "*"
time = { version = "0.3", features = ["serde"] }
url = "2"
uuid = { version = "1", features = ["v4"] }
walkdir = "2"
which = "*"

[dev-dependencies]
tempfile = "3"
