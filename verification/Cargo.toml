[package]
name = "docbridge"
version = "0.1.0"
edition = "2021"
publish = false

[dependencies]
polodb_core = "=4.4.2"
bson = "=2.15.0"
hex = "=0.4.3"
