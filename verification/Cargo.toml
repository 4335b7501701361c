[package]
name = "oqs_afw"
version = "0.1.0"
edition = "2021"
publish = false

[dependencies]
core_affinity = "*"
rand = "*"
structopt = "*"

[dev-dependencies]
csv = "*"
