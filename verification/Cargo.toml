[package]
name = "gridterm"
version = "0.1.0"
edition = "2021"
publish = false

[dependencies]
anyhow = "1"
arboard = { version = "3", default-features = false }
crossterm = "0.28"
fontdue = "0.9"
nix = { version = "0.29", features = ["term", "process", "signal", "fs"] }
ratatui = "0.29"
serde = { version = "1", features = ["derive"] }
serde_json = "1"
softbuffer = { version = "0.4", default-features = false, features = ["x11", "x11-dlopen"] }
vte = "0.13"
winit = { version = "0.29", default-features = false, features = ["x11", "rwh_06"] }
