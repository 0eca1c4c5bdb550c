[package]
name = "tf_asset_loader"
version = "0.1.0"
edition = "2021"
publish = false

[dependencies]
steamlocate = "2"
vpk = "*"
fs-err = "*"
envmnt = "*"
path-dedot = "*"

[dev-dependencies]
tempfile = "*"
