[package]
name = "lock_free_freelist"
version = "0.1.0"
edition = "2021"
publish = false

[dependencies]
bit_fiddler = "*"
proc-macro2 = "1"
quote = "1"
syn = "2"

[dev-dependencies]
rand = "0.8"
