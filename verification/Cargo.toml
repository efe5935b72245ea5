[package]
name = "tabletop_core"
version = "0.1.0"
edition = "2021"

[dependencies]
rand = "0.8"
