[package]
name = "i32_bfp"
version = "0.1.0"
edition = "2021"
publish = false

[dependencies]
dynasm = "*"
dynasmrt = "*"
