[package]
name = "wirecage"
version = "0.1.0"
edition = "2021"
publish = false

[dependencies]
anyhow = "*"
base64 = "*"
boringtun = "*"
clap = { version = "*", features = ["derive", "env"] }
ctrlc = "*"
futures = "*"
libc = "*"
nix = { version = "*", features = ["sched", "mount", "user", "signal", "process", "fs"] }
rtnetlink = "*"
tempfile = "*"
tokio = { version = "*", features = ["full"] }
tracing = "*"
tracing-subscriber = { version = "*", features = ["env-filter"] }
tun = { version = "*", features = ["async"] }
