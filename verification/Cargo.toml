[package]
name = "gossip_glomers"
version = "0.1.0"
edition = "2021"
publish = false

[dependencies]
async-trait = "0.1"
log = "0.4"
maelstrom-node = "*"
serde = { version = "1", features = ["derive"] }
tokio-context = "*"
