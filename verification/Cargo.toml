[package]
name = "c_compiler"
version = "0.1.0"
edition = "2021"
publish = false

[dependencies]
itertools = "0.14"
thiserror = "2"
clap = { version = "4", features = ["derive"] }
