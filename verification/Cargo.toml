[package]
name = "contelemetry"
version = "0.1.0"
edition = "2021"
publish = false

[dependencies]
anyhow = "1"
chrono = "0.4"
ctrlc = "3"
libbpf-rs = "*"
libc = "0.2"
nc = "*"
nix = "0.26"
structopt = "0.3"
textplots = "*"
