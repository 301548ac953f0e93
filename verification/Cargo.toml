[package]
name = "nexus"
version = "0.1.0"
edition = "2021"
publish = false

[dependencies]
blake3 = "1"
rustix = { version = "1", features = ["fs", "mount", "process", "thread"] }
seccompiler = "*"
landlock = "*"
libc = "0.2"
serde = { version = "1", features = ["derive"] }
toml = "*"
