[package]
name = "dutree"
version = "0.2.17"
edition = "2021"
publish = false

[dependencies]
getopts = "0.2"
signal-hook = "0.1"
terminal_size = "0.1"
unicode-segmentation = "1"
unicode-width = "0.1"
