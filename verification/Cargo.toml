[package]
name = "milla"
version = "0.1.0"
edition = "2021"
publish = false

[dependencies]
scc = "=3.8.8"
eyre = "=0.6.14"
