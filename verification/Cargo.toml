[package]
name = "spit"
version = "0.1.0"
edition = "2021"
publish = false

[dependencies]
dirs = "*"
serde_json = "1"
structopt = "0.3"
