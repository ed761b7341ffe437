[package]
name = "vcpu"
version = "0.1.0"
edition = "2021"
publish = false

[dependencies]
byteorder = "1"
clap = "2"
num-derive = "0.4"
num-traits = "0.2"
