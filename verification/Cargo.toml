[package]
name = "squares"
version = "0.1.0"
edition = "2021"

[dependencies]
rand_core = "0.6"
