[package]
name = "lstodo"
version = "0.1.0"
edition = "2021"
publish = false

[dependencies]
clap = "2"
git2 = { version = "*", default-features = false }
regex = "1"
termion = "1"
thiserror = "1"
walkdir = "2"

[dev-dependencies]
tempfile = "3"
