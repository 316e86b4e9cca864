[package]
name = "aptos_aggregator"
version = "0.1.0"
edition = "2021"
publish = false

[dependencies]
bcs = "*"
