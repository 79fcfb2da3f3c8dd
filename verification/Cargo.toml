[package]
name = "dq"
version = "0.1.0"
edition = "2021"
publish = false

[dependencies]
anyhow = "1"
base64 = "0.22"
clap = { version = "4", features = ["derive"] }
csv = "1"
hcl-rs = "*"
indexmap = "2"
jaq-core = "2"
jaq-json = { version = "1", features = ["serde_json"] }
jaq-std = "2"
json-patch = "*"
petgraph = "*"
rmp-serde = "1"
serde = { version = "1", features = ["derive"] }
serde_json = { version = "1", features = ["preserve_order"] }
serde-saphyr = "*"
sha2 = "0.10"
toml = "*"
