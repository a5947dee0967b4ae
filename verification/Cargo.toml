[package]
name = "vectors"
version = "0.4.0"
edition = "2021"
publish = false

[dependencies]
arrayvec = "0.7"
num-traits = "0.2"
ordered_iter = "*"
