[package]
name = "rua_install"
version = "0.1.0"
edition = "2021"
publish = false

[dependencies]
colored = "*"
fs_extra = "*"
indexmap = "*"
itertools = "*"
libc = "*"
log = "*"
rm_rf = "*"
