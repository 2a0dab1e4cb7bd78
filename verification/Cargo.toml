[package]
name = "crabtrap"
version = "0.1.0"
edition = "2021"

[dependencies]
clap = { version = "*", features = ["derive"] }
nix = { version = "*", features = ["ptrace", "process", "signal"] }
serde = { version = "*", features = ["derive"] }
serde_yaml = "*"
syscalls = { version = "*", features = ["aarch64"] }
thiserror = "*"

[dev-dependencies]
regex = "*"
