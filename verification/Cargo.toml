[package]
name = "script_bundle"
version = "0.1.0"
edition = "2021"
publish = false

[dependencies]
ahash = "0.8"
byte = "0.2"
crc32fast = "1"
hipstr = "*"
indexmap = "2"
vmap = "*"
