[package]
name = "hashsync"
version = "0.1.0"
edition = "2021"
publish = false

[dependencies]
dashmap = "6"
fxhash = "0.2"
