[package]
name = "mmux"
version = "1.0.0"
edition = "2021"
publish = false

[dependencies]
anyhow = "1"
clap = { version = "4", features = ["derive"] }
crossterm = "0.29"
portable-pty = "0.9"
vt100 = "0.16"
