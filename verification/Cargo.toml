[package]
name = "obkv"
version = "0.1.0"
edition = "2021"
publish = false

[dependencies]
rand = "0.8"
futures = "0.1"
futures-cpupool = "0.1"
scheduled-thread-pool = "0.2"
prometheus = "0.13"
