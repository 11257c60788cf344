[package]
name = "spire"
version = "0.1.0"
edition = "2021"
publish = false

[dependencies]
base64 = "0.22"
jsonwebtoken = "9"
regex = "1"
flate2 = "1"
zstd = "0.13"
ipnet = "2"
iprange = "0.6"
serde = { version = "1", features = ["derive"] }
serde_json = "1"
serde_yaml = "0.9"
http = "1"
clap = { version = "4", features = ["derive"] }
