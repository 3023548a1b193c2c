[package]
name = "blivet"
version = "1.0.0"
edition = "2021"
publish = false

[dependencies]
clap = { version = "4", features = ["derive"] }
libc = "0.2"
nix = { version = "0.31", features = ["fs", "signal", "process", "user", "resource"] }
thiserror = "2"

[dev-dependencies]
tempfile = "3"
