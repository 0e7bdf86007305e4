[package]
name = "zone_spans"
version = "0.1.0"
edition = "2021"
publish = false

[dependencies]
phf = "=0.10.1"
