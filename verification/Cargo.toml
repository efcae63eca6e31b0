[package]
name = "dlxt"
version = "0.1.0"
edition = "2021"
publish = false

[dependencies]
anyhow = "*"
bzip2 = "*"
curl = "*"
flate2 = "*"
log = "*"
tar = "*"
xz2 = { version = "*", features = ["static"] }
