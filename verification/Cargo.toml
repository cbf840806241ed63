[package]
name = "gdelta"
version = "0.2.0"
edition = "2021"
publish = false

[dependencies]
wide = "*"
anyhow = "1"
clap = { version = "4", features = ["derive"] }
lz4 = "1"
owo-colors = "4"
sysinfo = "*"
zstd = "0.13"
