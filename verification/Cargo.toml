[package]
name = "sandbox"
version = "0.1.0"
edition = "2021"
publish = false

[dependencies]
anyhow = "1"
chrono = "0.4"
clap = { version = "4", features = ["derive"] }
clap_complete = { version = "4", features = ["unstable-dynamic"] }
colored = "2"
data-encoding = "2"
fast-glob = "*"
libc = "0.2"
log = "0.4"
nix = { version = "0.29", features = ["fs", "mount", "process", "signal", "user", "hostname", "sched"] }
serde = { version = "1", features = ["derive"] }
serde_json = "1"
toml = "0.8"
uuid = { version = "1", features = ["v4"] }
walkdir = "2"
xattr = "1"
