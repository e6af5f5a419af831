[package]
name = "yaml_value"
version = "0.1.0"
edition = "2021"
publish = false

[dependencies]
linked-hash-map = "=0.5.6"
yaml-rust = "=0.4.5"
