[package]
name = "bookx"
version = "0.1.0"
edition = "2021"
publish = false

[dependencies]
epub = "2"
gio = "*"
glib = "*"
jsondata = "*"
rust-crypto = "0.2"
url = "2"
