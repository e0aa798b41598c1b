[package]
name = "sentrux_core"
version = "0.5.7"
edition = "2021"
publish = false

[dependencies]
dirs = "6"
flate2 = "1"
libloading = "0.8"
sha2 = "0.10"
tree-sitter = "0.25"

[dev-dependencies]
tree-sitter-json = "*"
