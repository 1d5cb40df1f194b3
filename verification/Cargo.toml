[package]
name = "rollback_netcode"
version = "0.1.0"
edition = "2021"
publish = false

[dependencies]
bevy = { version = "0.13", default-features = false }
bevy_renet = { version = "0.0.11" }
bincode = { version = "1.3" }
clap = { version = "4", features = ["derive"] }
serde = { version = "1", features = ["derive"] }
