[package]
name = "multipack"
version = "0.1.0"
edition = "2021"
publish = false

[dependencies]
git-chunk = "*"
filebuffer = "*"
os_str_bytes = "*"
