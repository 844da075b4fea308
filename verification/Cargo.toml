[package]
name = "page_renamer"
version = "0.1.0"
edition = "2021"
publish = false

[dependencies]
anyhow = "*"
imagesize = "*"
