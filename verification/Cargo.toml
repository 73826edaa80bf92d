[package]
name = "ostatus"
version = "0.1.0"
edition = "2021"
publish = false

[dependencies]
bitflags = "1.3"
chrono = "0.4"
clap = { version = "3.2", features = ["derive"] }
configparser = "3"
flate2 = "1"
git2 = "*"
libc = "0.2"
librpm = "*"
regex = "1"
sha2 = "0.10"
tempfile = "3"
xmltree = "0.10"
