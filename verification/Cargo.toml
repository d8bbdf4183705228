[package]
name = "scalar_store"
version = "0.1.0"
edition = "2021"
publish = false

[dependencies]
ahash = "=0.8.12"
blstrs = "=0.7.1"
dashmap = "=6.2.1"
ff = "=0.13.1"
generic-array = "=0.14.9"
indexmap = "=2.14.2"
neptune = { version = "=13.0.0", default-features = false }
once_cell = "=1.21.4"
string-interner = "=0.20.0"
