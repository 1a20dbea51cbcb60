[package]
name = "brain-fuck-rs"
version = "1.0.0"
edition = "2021"

[dependencies]
clap = "2.34"
