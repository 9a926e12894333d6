[package]
name = "zjstatus"
version = "0.1.0"
edition = "2021"
publish = false

[dependencies]
anstyle = "1"
regex = "1"
cached = "*"
zellij-tile = "*"
