[package]
name = "cratedb"
version = "0.1.0"
edition = "2021"
publish = false

[dependencies]
rand = "0.8"
ring = "0.17"
hyper = "0.10"
serde_json = "1"
