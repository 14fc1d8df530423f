[package]
name = "layeredfs"
version = "0.1.0"
edition = "2021"
publish = false

[dependencies]
crc32fast = "*"
sha256 = "*"
lzma-rs = "*"
libflate = "*"
json = "*"
uuid = { version = "*", features = ["v4"] }
walkdir = "*"

[dev-dependencies]
tempfile = "*"
