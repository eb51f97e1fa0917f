[package]
name = "aki_stats"
version = "0.1.12"
edition = "2021"
publish = false

[dependencies]
num-format = "0.4"
flood-tide = "0.2"
