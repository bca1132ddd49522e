[package]
name = "s7log"
version = "0.1.0"
edition = "2021"
publish = false

[dependencies]
chrono = "0.4"
clap = "2"
config = "0.10"
ctrlc = "3"
