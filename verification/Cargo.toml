[package]
name = "vortex"
version = "0.1.0"
edition = "2021"
publish = false

[dependencies]
futures = "=0.3.34"
itertools = "=0.14.0"
roaring = "*"
