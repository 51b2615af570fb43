[package]
name = "fst_reader"
version = "0.1.0"
edition = "2021"
publish = false

[dependencies]
flate2 = "1"
lz4_flex = "*"
fastlz = "*"
