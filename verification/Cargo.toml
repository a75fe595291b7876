[package]
name = "minibus"
version = "0.1.0"
edition = "2021"
publish = false

[dependencies]
anyhow = "1"
async-std = { version = "1", features = ["attributes"] }
async-trait = "0.1"
base64 = "0.12"
inventory = "0.1"
log = "0.4"
multimap = { version = "0.8", default-features = false }
pretty_env_logger = "0.4"
rand = "0.7"
structopt = "0.3"
tide = { version = "0.16", default-features = false, features = ["h1-server"] }
weak-table = "0.3"
