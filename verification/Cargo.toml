[package]
name = "row"
version = "0.1.0"
edition = "2021"
publish = false

[dependencies]
clap = { version = "*", features = ["derive"] }
env_logger = "*"
home = "*"
log = "*"
nix = { version = "*", features = ["signal"] }
postcard = { version = "*", features = ["use-std"] }
serde = { version = "*", features = ["derive"] }
serde_json = "*"
signal-hook = "*"
speedate = "*"
toml = "*"
uuid = { version = "*", features = ["v4"] }
