[package]
name = "mitos"
version = "0.1.0"
edition = "2021"
publish = false

[dependencies]
nix = { version = "0.29", features = ["signal", "poll", "process", "fs", "term", "user"] }
libc = "0.2"
rustyline = "14"
glob = "0.3"
dirs = "5"
serde = { version = "1", features = ["derive"] }
serde_json = "1"
bincode = "1"
thiserror = "1"
