[package]
name = "eql"
version = "0.1.0"
edition = "2021"
publish = false

[dependencies]
bstr = "*"
unicode-segmentation = "*"
unic-ucd-category = "*"
