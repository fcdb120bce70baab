[package]
name = "bulkrename"
version = "0.1.0"
edition = "2021"
publish = false

[dependencies]
anyhow = "1"
colored = "2"
rayon = "1"
regex = "1"
structopt = "0.3"
tempfile = "3"
