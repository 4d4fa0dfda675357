[package]
name = "sggit"
version = "0.1.0"
edition = "2021"
publish = false

[dependencies]
anyhow = "1"
argh = "0.1"
chrono = "0.4"
git2 = { version = "0.20", default-features = false }
tilde-expand = "0.1"
