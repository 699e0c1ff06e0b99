[package]
name = "abrupng"
version = "0.1.0"
edition = "2021"
publish = false

[dependencies]
byteorder = "1"
getopts = "0.2"
png = "0.17"
quick-error = "2"
