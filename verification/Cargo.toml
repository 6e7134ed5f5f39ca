[package]
name = "frzr"
version = "0.1.0"
edition = "2021"
publish = false

[dependencies]
sha2 = "0.9"
sqlite = "=0.26.0"
clap = "=3.2.25"
