[package]
name = "h1"
version = "0.1.0"
edition = "2021"
publish = false

[dependencies]
httparse = "=1.10.1"
path-tree = "=0.8.3"
async-std = "=1.13.2"
async-trait = "=0.1.92"
futures = "=0.3.34"
log = "=0.4.34"
femme = "=2.2.1"
tendril = "*"
