[package]
name = "rusty_map_view"
version = "0.1.0"
edition = "2021"
publish = false

[dependencies]
json = "0.12"
