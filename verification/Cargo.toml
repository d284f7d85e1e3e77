[package]
name = "krom"
version = "0.1.0"
edition = "2021"
publish = false

[dependencies]
anyhow = "1"
bitflags = "1"
exitcode = "1"
libc = "0.2"
log = "0.4"
nix = "0.26"
serde = { version = "1", features = ["derive"] }
serde_json = "1"
signal-hook = "0.3"
sqlite = "0.30"
syslog = "6"
