[package]
name = "alt"
version = "0.1.0"
edition = "2021"
publish = false

[dependencies]
anyhow = "1"
clap = "3"
console = "0.15"
dialoguer = "0.10"
glob = "0.3"
