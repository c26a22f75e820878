[package]
name = "minipack"
version = "0.1.0"
edition = "2021"
publish = false

[dependencies]
sha1 = "*"
serde_json = "*"
node-resolve = "*"
esprit = "*"
easter = "*"
