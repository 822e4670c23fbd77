[package]
name = "replay_parser"
version = "0.1.0"
edition = "2021"
publish = false

[dependencies]
aes-soft = "0.6"
block-modes = "0.7"
