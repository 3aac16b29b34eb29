[package]
name = "scaphandre"
version = "0.1.0"
edition = "2021"
publish = false

[dependencies]
clap = "*"
colored = "*"
log = "*"
procfs = "*"
riemann_client = "*"
