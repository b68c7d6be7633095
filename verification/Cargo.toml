[package]
name = "pdfraster"
version = "0.1.0"
edition = "2021"
publish = false

[dependencies]
hayro = "*"
hayro-interpret = "*"
image = "*"
zip = "*"
humansize = "*"
