[package]
name = "epp"
version = "0.3.0"
edition = "2021"

[dependencies]
clap = "2"
itertools = "0.10"
log = "0.4"
simplelog = "0.12"
thiserror = "1"
