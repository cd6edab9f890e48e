[package]
name = "rzc"
version = "0.1.0"
edition = "2021"
publish = false

[dependencies]
bincode = "1"
dirs = "*"
getopts = "0.2"
once_cell = "1"
regex = "1"
