[package]
name = "assets_tar_zstd"
version = "0.1.0"
edition = "2021"
publish = false

[dependencies]
tar = "*"
zstd = "*"
anyhow = "*"
