[package]
name = "webmirror"
version = "0.1.0"
edition = "2021"
publish = false

[dependencies]
url = "*"
clap = { version = "*", features = ["derive"] }
reqwest = { version = "*", default-features = false, features = ["blocking"] }
chrono = "*"
indicatif = "*"
walkdir = "*"
