[package]
name = "nicstats"
version = "0.1.0"
edition = "2021"
publish = false

[dependencies]
chrono = "0.4"
cursive = { version = "*", default-features = false }
netlink-packet-core = "=0.7.0"
netlink-packet-route = "=0.19.0"
netlink-sys = "=0.8.8"
nix = "=0.25.1"
serde = { version = "=1.0.229", features = ["derive"] }
