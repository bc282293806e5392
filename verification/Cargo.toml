[package]
name = "top_type_sizes"
version = "0.1.0"
edition = "2021"
publish = false

[dependencies]
regex = "*"
structopt = "*"
