[package]
name = "reaktiv"
version = "0.1.0"
edition = "2021"
publish = false

[dependencies]
foldhash = "0.2"
indexmap = "2"
papaya = "0.2"
parking_lot = "0.12"
slab = "0.4"
