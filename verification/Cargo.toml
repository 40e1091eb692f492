[package]
name = "udpcp"
version = "0.1.0"
edition = "2021"
publish = false

[dependencies]
clap = { version = "4", features = ["derive"] }
humantime = "2"
libc = "0.2"
serde_json = "1"
sha2 = "*"
signal-hook = "*"

[dev-dependencies]
rand = "*"
rand_pcg = "*"
