[package]
name = "firewall_bridge"
version = "0.1.0"
edition = "2021"
publish = false

[dependencies]
libc = "*"
rusqlite = "*"
serde = { version = "*", features = ["derive"] }
serde_json = "*"
