[package]
name = "go_to_rust"
version = "0.1.0"
edition = "2021"
publish = false

[dependencies]
heck = "0.3"
codegen = "0.1"
