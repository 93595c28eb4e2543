[package]
name = "node_reactor"
version = "0.1.0"
edition = "2021"
publish = false

[dependencies]
base64 = "0.12"
hex = "0.4"
rand = "0.7"
clap = "2.33"
lazy_static = "1.4"
