[package]
name = "captif"
version = "0.1.0"
edition = "2021"
publish = false

[dependencies]
serde_json = "1"
hyper = "*"
rand = "*"
chrono = "*"
chrono-tz = "*"
iptables = "*"
serde = { version = "1", features = ["derive"] }
toml = "*"
