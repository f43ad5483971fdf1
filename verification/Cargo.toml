[package]
name = "duck_search"
version = "0.1.0"
edition = "2021"

[dependencies]
atomic-wait = "1"
enum-map = "2"
