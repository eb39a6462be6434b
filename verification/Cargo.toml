[package]
name = "ghostscribe-client"
version = "0.1.0"
edition = "2021"
publish = false

[dependencies]
anyhow = "1"
serde = { version = "1", features = ["derive"] }
toml = "0.8"
ureq = "2"
rand = "0.8"
hound = "3"
flacenc = "*"
rdev = "0.5"
arboard = { version = "3", default-features = false }
arc-swap = "1"
