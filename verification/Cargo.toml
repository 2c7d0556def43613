[package]
name = "mdev"
version = "0.1.0"
edition = "2021"
publish = false

[dependencies]
anyhow = "1"
clap = { version = "4", features = ["derive"] }
fork = "0.1"
futures-util = "0.3"
kobject-uevent = "*"
mdev-parser = "*"
netlink-sys = { version = "0.8", features = ["tokio_socket"] }
nix = "0.26"
regex = "1"
syslog-tracing = "*"
thiserror = "1"
tokio = { version = "1", features = ["fs", "macros", "rt", "rt-multi-thread", "sync"] }
tracing = "0.1"
tracing-subscriber = { version = "0.3", features = ["env-filter"] }
walkdir = "2"
