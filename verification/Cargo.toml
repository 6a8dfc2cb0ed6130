[package]
name = "quantr"
version = "0.6.0"
edition = "2021"
publish = false

[dependencies]
fastrand = "2.1.0"
num-complex = "0.4.6"
