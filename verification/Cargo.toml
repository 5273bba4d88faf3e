[package]
name = "newsdeck"
version = "0.1.0"
edition = "2021"
publish = false

[dependencies]
html-escape = "*"
rss = "*"
