[package]
name = "branch_sweep"
version = "0.1.0"
edition = "2021"
publish = false

[dependencies]
chrono = "0.4"
colored = "2"
dialoguer = "0.11"
git2 = { version = "0.19", default-features = false }
walkdir = "2"
