[package]
name = "falcon_z3"
version = "0.1.0"
edition = "2021"
publish = false

[dependencies]
falcon = "*"
z3-sys = "*"
num-bigint = "*"
num-traits = "*"
