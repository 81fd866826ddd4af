[package]
name = "arca_networking"
version = "0.1.0"
edition = "2021"
publish = false

[dependencies]
memmap2 = "0.9"
nix = { version = "0.29", features = ["fs", "mman", "feature"] }
