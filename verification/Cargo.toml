[package]
name = "ccase"
version = "0.1.0"
edition = "2021"
publish = false

[dependencies]
clap = "4"
atty = "0.2"
convert_case = "0.6"
