[package]
name = "proxy-bridge"
version = "0.1.0"
edition = "2021"
publish = false

[dependencies]
anyhow = "1"
base64 = "0.22"
clap = { version = "4", features = ["derive"] }
ctrlc = "3"
env_logger = "0.11"
libc = "0.2"
log = "0.4"
mnl = "*"
nfq = "*"
nftnl = "*"
nix = { version = "*", features = ["user"] }
tokio = { version = "1", features = ["io-util", "macros", "net", "rt-multi-thread", "time"] }
