[package]
name = "algae"
version = "0.1.0"
edition = "2021"
publish = false

[dependencies]
fastrand = "2"
num = "0.4"
rand = "0.8"
