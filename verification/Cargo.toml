[package]
name = "satfire"
version = "0.1.0"
edition = "2021"
publish = false

[dependencies]
bincode = "1"
chrono = "0.4"
clap = { version = "3", features = ["derive", "env"] }
crossbeam-channel = "0.5"
gdal = "*"
geo = "*"
kd-tree = "*"
log = "0.4"
rusqlite = { version = "*", features = ["bundled"] }
simple_logger = "*"
strum = { version = "*", features = ["derive"] }
typenum = "1"
walkdir = "2"
