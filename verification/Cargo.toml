[package]
name = "docindex"
version = "0.1.0"
edition = "2021"
publish = false

[dependencies]
roaring = "=0.10.12"
tantivy = "=0.19.2"
log = "*"
simple-logging = "*"
