[package]
name = "portpeek"
version = "0.1.0"
edition = "2021"
publish = false

[dependencies]
clap = { version = "4", features = ["derive"] }
colored = "2"
comfy-table = "7"
crossterm = "0.27"
serde = { version = "1", features = ["derive"] }
serde_json = "1"
sysinfo = "0.30"
