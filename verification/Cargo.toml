[package]
name = "modulegraph"
version = "0.1.0"
edition = "2021"
publish = false

[dependencies]
syn = { version = "2", features = ["full"] }
walkdir = "2"
cargo_metadata = "*"
