[package]
name = "omo"
version = "0.1.0"
edition = "2021"
publish = false

[dependencies]
bytes = "=1.12.1"
goblin = "=0.10.7"
hex = "=0.4.3"
tiny-keccak = { version = "=2.0.2", features = ["keccak"] }
serde = { version = "=1.0.229", features = ["derive"] }
serde_json = "=1.0.154"
unicorn-engine = "=2.1.5"
thiserror = "=1.0.69"
anyhow = "=1.0.104"
log = "=0.4.34"
clap = { version = "4", features = ["derive"] }
toml = "0.8"
env_logger = "0.11"
