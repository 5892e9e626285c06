[package]
name = "tree_to_archive"
version = "0.1.0"
edition = "2021"
publish = false

[dependencies]
tar = "0.4"
build-fs-tree = "*"
command-extra = "*"
derive_more = { version = "*", features = ["full"] }
pipe-trait = "*"
rand = "*"
