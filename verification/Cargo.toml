[package]
name = "mal_reader"
version = "0.1.0"
edition = "2021"
publish = false

[dependencies]
rustyline = "=9.1.2"

[dev-dependencies]
regex = "1"
