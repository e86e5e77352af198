[package]
name = "remoteprocess"
version = "0.1.0"
edition = "2021"
publish = false

[dependencies]
goblin = "*"
nix = { version = "*", features = ["ptrace", "process", "uio", "fs", "dir", "signal"] }
