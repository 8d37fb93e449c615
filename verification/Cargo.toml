[package]
name = "kompo_fs"
version = "0.1.0"
edition = "2021"
publish = false

[dependencies]
libc = "*"
trie-rs = "*"
