[package]
name = "gpmf_parser"
version = "0.1.0"
edition = "2021"
publish = false

[dependencies]
mp4 = "*"
gpx = "*"
geo-types = "*"
clap = { version = "*", features = ["derive"] }
log = "*"
time = "*"
