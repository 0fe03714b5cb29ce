[package]
name = "bugstalker"
version = "0.1.0"
edition = "2021"
publish = false

[dependencies]
rustc-demangle = "=0.1.28"
nix = { version = "=0.29.0", features = ["ptrace", "process", "signal", "uio", "personality"] }
anyhow = "=1.0.104"
smallvec = "=1.16.4"
bytes = "=1.12.1"
once_cell = "=1.21.4"
proc-maps = "=0.5.0"
regex = "1"
