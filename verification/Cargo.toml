[package]
name = "cinnabar"
version = "0.1.0"
edition = "2021"
publish = false

[dependencies]
percent-encoding = "2"
sha1 = "0.10"
flate2 = "1"
zstd = "0.13"
bzip2 = "0.4"
url = "2"
