[package]
name = "vmm_core"
version = "0.1.0"
edition = "2021"
publish = false

[dependencies]
libc = "0.2"
clap = "2"
rand = "0.8"
serde = { version = "1", features = ["derive"] }
serde_json = "1"
