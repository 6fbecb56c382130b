[package]
name = "rustutil"
version = "0.1.0"
edition = "2021"
publish = false

[dependencies]
serde_json = "*"
git2 = "*"
clap = { version = "*", features = ["derive"] }
colored = "*"
log = "*"
