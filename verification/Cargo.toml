[package]
name = "noddy"
version = "0.1.0"
edition = "2021"
publish = false

[dependencies]
pest = "*"
pest_derive = "*"
fdg-sim = "*"
fdg-img = "*"
