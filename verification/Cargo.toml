[package]
name = "rlaunch"
version = "0.1.0"
edition = "2021"
publish = false

[dependencies]
fuzzy-matcher = "*"
structopt = "*"
x11-dl = "*"
