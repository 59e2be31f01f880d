[package]
name = "fast_beam"
version = "0.1.0"
edition = "2021"
publish = false

[dependencies]
byteorder = "1"
fxhash = "0.2"
thiserror = "1"
