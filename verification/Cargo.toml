[package]
name = "minecraft_gl"
version = "0.1.0"
edition = "2021"
publish = false

[dependencies]
bit-set = "=0.11.1"
serde_json = "=1.0.154"
thiserror = "=1.0.69"
rand = "=0.8.8"
bracket-noise = "=0.8.7"
queues = "=1.1.0"
anyhow = "=1.0.104"
log = "=0.4.35"
image = { version = "0.24", default-features = false, features = ["png"] }
