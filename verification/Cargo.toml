[package]
name = "markdown_flow"
version = "0.1.0"
edition = "2021"
publish = false

[dependencies]
pulldown-cmark = "*"
parley = "*"
image = "*"
