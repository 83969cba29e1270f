[package]
name = "avrs"
version = "0.1.0"
edition = "2021"
publish = false

[dependencies]
miette = "7"
thiserror = "2"
clap = { version = "4", features = ["derive"] }
tracing = "0.1"
