[package]
name = "orogene"
version = "0.1.0"
edition = "2021"
publish = false

[dependencies]
node-semver = "=2.2.0"
ssri = "=9.2.0"
unicase = "=2.10.0"
petgraph = "=0.6.5"
url = "=2.5.8"
colored = "=2.2.0"
serde_json = "=1.0.154"
humansize = "=1.1.1"
term_grid = "=0.1.7"
term_size = "=0.3.2"
pathdiff = "0.2"
