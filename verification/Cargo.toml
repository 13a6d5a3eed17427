[package]
name = "netmon"
version = "0.3.0"
edition = "2021"
publish = false

[dependencies]
anyhow = "1"
aya = "0.13"
aya-ebpf = "0.1"
aya-log = "0.2"
clap = { version = "4", features = ["derive"] }
libc = "0.2"
