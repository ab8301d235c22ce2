[package]
name = "btracked"
version = "0.1.0"
edition = "2021"
publish = false

[dependencies]
crossbeam-channel = "*"
serde = { version = "*", features = ["derive"] }
serde_json = "*"
toml = "*"
rand = "*"
rayon = "*"
log = "*"
env_logger = "*"
hex = "*"
image = { version = "*", default-features = false, features = ["png"] }
serialport = { version = "*", default-features = false }
reqwest = { version = "*", default-features = false, features = ["blocking", "json"] }
