[package]
name = "syscallcage"
version = "0.2.0"
edition = "2021"
publish = false

[dependencies]
regex = "1"
serde = { version = "1", features = ["derive"] }
serde_json = "1"
serde_yaml = "0.9"
thiserror = "1"
clap = { version = "4", features = ["derive"] }
libc = "0.2"
nix = { version = "0.29", features = ["process", "signal", "fs"] }
tokio = { version = "1", features = ["rt-multi-thread", "macros", "signal"] }
aya = "0.13"
