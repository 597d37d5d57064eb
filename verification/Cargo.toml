[package]
name = "rgep"
version = "0.1.0"
edition = "2021"
publish = false

[dependencies]
rand = "=0.10.3"
statrs = "=0.19.1"
