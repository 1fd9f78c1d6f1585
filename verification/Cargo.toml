[package]
name = "tir"
version = "0.1.0"
edition = "2021"
publish = false

[dependencies]
linkme = "0.3"
smallvec = "1"
thiserror = "2"
