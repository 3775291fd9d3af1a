[package]
name = "desktop_entry"
version = "0.1.0"
edition = "2021"
publish = false

[dependencies]
serde = "*"
indexmap = "*"
