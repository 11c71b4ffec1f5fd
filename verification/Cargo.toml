[package]
name = "lkjscript_platform"
version = "0.1.0"
edition = "2021"
publish = false

[dependencies]
blake3 = "=1.8.7"
ryu = "=1.0.23"
serde = "=1.0.229"
bincode = "=2.0.1"
base64 = "0.22"
