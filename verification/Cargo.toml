[package]
name = "loft"
version = "0.1.0"
edition = "2021"
publish = false

[dependencies]
serde = { version = "1", features = ["derive"] }
serde_json = "1"
image = { version = "0.25", default-features = false, features = ["png"] }
sysinfo = "0.32"
netstat2 = "*"
walkdir = "2"
lnk = "0.5"
chrono = "0.4"
once_cell = "1"
parking_lot = "0.12"
