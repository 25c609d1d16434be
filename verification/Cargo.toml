[package]
name = "wyd"
version = "0.1.0"
edition = "2021"
publish = false

[dependencies]
blake3 = "1"
bollard = "*"
clap = { version = "4", features = ["derive"] }
getrandom = "*"
libc = "0.2"
netstat2 = "*"
parking_lot = "0.12"
serde = { version = "1", features = ["derive"] }
serde_json = "1"
sysinfo = "*"
tokio = { version = "1", features = ["rt"] }
toml = "*"
