[package]
name = "zip"
version = "0.10.0"
edition = "2021"
publish = false

[dependencies]
byteorder = "1"
bzip2 = "0.6"
crc32fast = "1"
flate2 = "1"
futures-util = "0.3"
getrandom = "0.2"
indexmap = "2"
libc = "0.2"
msdos_time = "0.1"
once_cell = "1"
parking_lot = "0.12"
tempfile = "3"
time = "0.2"
tokio = { version = "1", features = ["full"] }
tokio-pipe = "0.2"
tokio-stream = "0.1"
zstd = "0.13"
