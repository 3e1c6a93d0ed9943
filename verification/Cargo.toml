[package]
name = "range_equity"
version = "0.1.0"
edition = "2021"
publish = false

[dependencies]
poker = "*"
