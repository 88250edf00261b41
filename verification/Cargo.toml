[package]
name = "macchina"
version = "0.1.0"
edition = "2021"
publish = false

[dependencies]
bytesize = "*"
num_cpus = "*"
