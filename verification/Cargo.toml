[package]
name = "tise"
version = "0.1.0"
edition = "2021"
publish = false

[dependencies]
anyhow = "1"
flate2 = "1"
indexmap = "2"
json5 = "*"
ryu = "1"
serde = "1"
