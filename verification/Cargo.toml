[package]
name = "sysmon"
version = "0.1.0"
edition = "2021"
publish = false

[dependencies]
anyhow = "1"
crossterm = "0.25"
sysinfo = "0.29"
tokio = { version = "1", features = ["full"] }
tui = "0.19"
