[package]
name = "dual_cache"
version = "0.1.0"
edition = "2021"
publish = false

[dependencies]
arc-swap = "*"
crossbeam = "*"
parking_lot = "*"
