[package]
name = "typeset"
version = "0.1.0"
edition = "2021"
publish = false

[dependencies]
fontdue = "*"
fontdb = "*"
parking_lot = "*"
log = "*"
