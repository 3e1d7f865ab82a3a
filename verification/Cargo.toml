[package]
name = "bluejay_validator"
version = "0.1.0"
edition = "2021"
publish = false

[dependencies]
bluejay-core = "*"
bluejay-parser = "*"
serde_json = "*"
itertools = "*"
