[package]
name = "precompiles"
version = "0.1.0"
edition = "2021"
publish = false

[dependencies]
num = "=0.4.3"
sp1-primitives = "=4.2.1"
sp1-curves = "=4.2.1"
