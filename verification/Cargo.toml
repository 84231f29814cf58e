[package]
name = "kinship"
version = "0.1.0"
edition = "2021"
publish = false

[dependencies]
libloading = "0.6"
num_cpus = "1"
libc = "0.2"
