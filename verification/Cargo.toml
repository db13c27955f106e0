[package]
name = "fedora_export"
version = "0.1.0"
edition = "2021"
publish = false

[dependencies]
alphanumeric-sort = "=1.5.8"
chrono = "=0.4.45"
clap = "=2.34.0"
crc32fast = "=1.5.3"
csv = "=1.4.0"
filetime = "=0.2.29"
quick-xml = { version = "=0.20.0", features = ["serialize"] }
regex = "=1.13.1"
rhai = "=1.27.0"
serde = { version = "=1.0.229", features = ["derive"] }
sha1 = "=0.10.7"
walkdir = "=2.5.0"
