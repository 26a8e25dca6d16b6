[package]
name = "fancy_garbling"
version = "0.1.0"
edition = "2021"
publish = false

[dependencies]
sha2 = "*"
poly1305 = "*"
universal-hash = "*"
curve25519-dalek = "*"
rand = "*"
